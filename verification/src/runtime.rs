//! Runtime configuration, deadlines, cancellation, and injectable time sources.

use vstd::prelude::*;

use crate::error;
use crate::error::{CliError, ErrorKind, ExitCode};
use crate::text;
use crate::text::{chars_of, str_equal};
use crate::time;
use crate::time::{Duration, Instant};

verus! {

/// The platforms that the policies tell apart.
#[derive(Clone, Copy, Debug, PartialEq, Eq, Structural)]
pub enum Platform {
    Linux,
    Android,
    MacOs,
    Ios,
    OtherUnix,
    Windows,
    Other,
}

/// Whether a platform has Unix sockets and process ownership.
pub open spec fn unix(platform: Platform) -> bool {
    platform != Platform::Windows && platform != Platform::Other
}

impl Platform {
    pub fn is_unix(self) -> (r: bool)
        ensures
            r == unix(self),
    {
        match self {
            Platform::Windows | Platform::Other => false,
            _ => true,
        }
    }
}

/// Runtime policy derived from the supported `MCP_*` environment variables.
#[derive(Clone, Debug, PartialEq, Eq)]
pub struct RuntimeConfig {
    pub timeout: Duration,
    pub concurrency: usize,
    pub max_retries: u32,
    pub retry_base_delay: Duration,
    pub strict_env: bool,
    pub daemon_enabled: bool,
    pub daemon_idle_timeout: Duration,
    pub debug: bool,
}

/// The content of a runtime policy; spans are in nanoseconds.
pub struct RuntimeSettings {
    pub timeout: nat,
    pub concurrency: nat,
    pub max_retries: nat,
    pub retry_base_delay: nat,
    pub strict_env: bool,
    pub daemon_enabled: bool,
    pub daemon_idle_timeout: nat,
    pub debug: bool,
}

impl View for RuntimeConfig {
    type V = RuntimeSettings;

    open spec fn view(&self) -> RuntimeSettings {
        RuntimeSettings {
            timeout: self.timeout@,
            concurrency: self.concurrency as nat,
            max_retries: self.max_retries as nat,
            retry_base_delay: self.retry_base_delay@,
            strict_env: self.strict_env,
            daemon_enabled: self.daemon_enabled,
            daemon_idle_timeout: self.daemon_idle_timeout@,
            debug: self.debug,
        }
    }
}

/// The policy without any override: 30 minutes in total, five servers at a
/// time, three retries from one second on, a daemon that idles for a minute.
pub open spec fn default_settings(platform: Platform) -> RuntimeSettings {
    RuntimeSettings {
        timeout: 1_800_000_000_000,
        concurrency: 5,
        max_retries: 3,
        retry_base_delay: 1_000_000_000,
        strict_env: true,
        daemon_enabled: unix(platform),
        daemon_idle_timeout: 60_000_000_000,
        debug: false,
    }
}

/// The names and values of an environment snapshot.
pub open spec fn pairs(environment: Seq<(&str, &str)>) -> Seq<(Seq<char>, Seq<char>)> {
    environment.map_values(|entry: (&str, &str)| (entry.0@, entry.1@))
}

/// The value of a variable; a later entry replaces an earlier one.
pub open spec fn variable(environment: Seq<(Seq<char>, Seq<char>)>, name: Seq<char>) -> Option<
    Seq<char>,
>
    decreases environment.len(),
{
    if environment.len() == 0 {
        None
    } else if environment.last().0 == name {
        Some(environment.last().1)
    } else {
        variable(environment.drop_last(), name)
    }
}

pub open spec fn is_digit(c: char) -> bool {
    '0' <= c <= '9'
}

/// One or more decimal digits and nothing else.
pub open spec fn is_numeral(value: Seq<char>) -> bool {
    value.len() > 0 && forall|i: int| 0 <= i < value.len() ==> is_digit(#[trigger] value[i])
}

/// The number that a numeral stands for.
pub open spec fn numeral_value(value: Seq<char>) -> nat
    decreases value.len(),
{
    if value.len() == 0 {
        0
    } else {
        numeral_value(value.drop_last()) * 10 + (value.last() as nat - 48) as nat
    }
}

/// A number read from a variable, or the reason why the variable is rejected.
pub enum Reading {
    Absent,
    Number(nat),
    Rejected,
}

/// Reads an optional number from `least` to `most`.
pub open spec fn number(
    environment: Seq<(Seq<char>, Seq<char>)>,
    name: Seq<char>,
    least: nat,
    most: nat,
) -> Reading {
    match variable(environment, name) {
        None => Reading::Absent,
        Some(value) => if is_numeral(value) && least <= numeral_value(value) <= most {
            Reading::Number(numeral_value(value))
        } else {
            Reading::Rejected
        },
    }
}

/// The number in units of `unit`, or the default.
pub open spec fn scaled(reading: Reading, unit: nat, default: nat) -> nat {
    match reading {
        Reading::Number(value) => value * unit,
        _ => default,
    }
}

/// ASCII letters in lower case; other characters as they are.
pub open spec fn ascii_lower(c: char) -> char {
    if 'A' <= c <= 'Z' {
        (c as u32 + 32) as char
    } else {
        c
    }
}

/// The error for a variable that does not hold what it must hold.
pub open spec fn runtime_config_error(name: Seq<char>, expected: Seq<char>) -> error::ErrorContent {
    error::plain_error(ErrorKind::InvalidRuntimeConfig, "Invalid runtime configuration"@).details(
        name + " must be "@ + expected,
    )
}

/// The policy that an environment describes, or the error for the first
/// variable that is rejected.
pub open spec fn settings_of(
    environment: Seq<(Seq<char>, Seq<char>)>,
    platform: Platform,
) -> Result<RuntimeSettings, error::ErrorContent> {
    let positive = "a positive decimal integer"@;
    let defaults = default_settings(platform);
    let timeout = number(environment, "MCP_TIMEOUT"@, 1, u64::MAX as nat);
    let concurrency = number(environment, "MCP_CONCURRENCY"@, 1, usize::MAX as nat);
    let retries = number(environment, "MCP_MAX_RETRIES"@, 0, u32::MAX as nat);
    let delay = number(environment, "MCP_RETRY_DELAY"@, 1, u64::MAX as nat);
    let idle = number(environment, "MCP_DAEMON_TIMEOUT"@, 1, u64::MAX as nat);
    if timeout is Rejected {
        Err(runtime_config_error("MCP_TIMEOUT"@, positive))
    } else if concurrency is Rejected {
        Err(runtime_config_error("MCP_CONCURRENCY"@, positive))
    } else if retries is Rejected {
        Err(runtime_config_error("MCP_MAX_RETRIES"@, "a non-negative decimal integer"@))
    } else if delay is Rejected {
        Err(runtime_config_error("MCP_RETRY_DELAY"@, positive))
    } else if idle is Rejected {
        Err(runtime_config_error("MCP_DAEMON_TIMEOUT"@, positive))
    } else {
        Ok(
            RuntimeSettings {
                timeout: scaled(timeout, 1_000_000_000, defaults.timeout),
                concurrency: scaled(concurrency, 1, defaults.concurrency),
                max_retries: scaled(retries, 1, defaults.max_retries),
                retry_base_delay: scaled(delay, 1_000_000, defaults.retry_base_delay),
                strict_env: match variable(environment, "MCP_STRICT_ENV"@) {
                    None => true,
                    Some(value) => value.map_values(|c: char| ascii_lower(c)) != "false"@ && value
                        != "0"@,
                },
                daemon_enabled: unix(platform) && variable(environment, "MCP_NO_DAEMON"@) != Some(
                    "1"@,
                ),
                daemon_idle_timeout: scaled(idle, 1_000_000_000, defaults.daemon_idle_timeout),
                debug: match variable(environment, "MCP_DEBUG"@) {
                    None => false,
                    Some(value) => value.len() > 0,
                },
            },
        )
    }
}

fn lookup<'a>(environment: &[(&'a str, &'a str)], name: &str) -> (r: Option<&'a str>)
    ensures
        r is Some <==> variable(pairs(environment@), name@) is Some,
        r matches Some(value) ==> variable(pairs(environment@), name@) == Some(value@),
{
    let mut index: usize = environment.len();
    assert(pairs(environment@).take(index as int) =~= pairs(environment@));
    while index > 0
        invariant
            index <= environment.len(),
            variable(pairs(environment@), name@) == variable(
                pairs(environment@).take(index as int),
                name@,
            ),
        decreases index,
    {
        let entry = environment[index - 1];
        assert(pairs(environment@).take(index as int).last() == (entry.0@, entry.1@));
        assert(pairs(environment@).take(index as int).drop_last() =~= pairs(environment@).take(
            index - 1,
        ));
        if str_equal(entry.0, name) {
            return Some(entry.1);
        }
        index -= 1;
    }
    None
}

proof fn lemma_numeral_value_grows(value: Seq<char>, length: int)
    requires
        is_numeral(value),
        0 <= length <= value.len(),
    ensures
        numeral_value(value.take(length)) <= numeral_value(value),
    decreases value.len() - length,
{
    if length == value.len() {
        assert(value.take(length) =~= value);
    } else {
        lemma_numeral_value_grows(value, length + 1);
        assert(value.take(length + 1).drop_last() =~= value.take(length));
        assert(is_digit(value[length]));
    }
}

/// Reads a numeral that is at most `most`.
fn parse_decimal(value: &str, most: u64) -> (r: Option<u64>)
    ensures
        r is Some <==> is_numeral(value@) && numeral_value(value@) <= most,
        r matches Some(parsed) ==> parsed == numeral_value(value@),
{
    let characters = chars_of(value);
    if characters.len() == 0 {
        return None;
    }
    let mut scan: usize = 0;
    while scan < characters.len()
        invariant
            characters@ == value@,
            scan <= characters.len(),
            forall|i: int| 0 <= i < scan ==> is_digit(#[trigger] characters@[i]),
        decreases characters.len() - scan,
    {
        let c = characters[scan];
        if c < '0' || '9' < c {
            assert(!is_digit(characters@[scan as int]));
            return None;
        }
        scan += 1;
    }
    let mut parsed: u64 = 0;
    let mut index: usize = 0;
    while index < characters.len()
        invariant
            index <= characters.len(),
            characters@ == value@,
            is_numeral(value@),
            parsed == numeral_value(value@.take(index as int)),
            parsed <= most,
        decreases characters.len() - index,
    {
        assert(is_digit(value@[index as int]));
        let digit: u64 = characters[index] as u64 - 48;
        proof {
            assert(value@.take(index + 1).drop_last() =~= value@.take(index as int));
            lemma_numeral_value_grows(value@, index + 1);
        }
        let next: u128 = parsed as u128 * 10 + digit as u128;
        if next > most as u128 {
            return None;
        }
        parsed = next as u64;
        index += 1;
    }
    assert(value@.take(index as int) =~= value@);
    Some(parsed)
}

fn invalid_runtime_config(name: &str, expected: &str) -> (r: CliError)
    ensures
        r@ == runtime_config_error(name@, expected@),
{
    let mut details = name.to_owned();
    details.append(" must be ");
    details.append(expected);
    CliError::new(
        ErrorKind::InvalidRuntimeConfig,
        "Invalid runtime configuration",
        ExitCode::Client,
    ).with_details(details.as_str())
}

/// The error for a variable whose value is not valid UTF-8.
pub fn non_utf8_variable(name: &str) -> (r: CliError)
    ensures
        r@ == runtime_config_error(
            name@,
            "valid UTF-8 containing the documented value type"@,
        ),
{
    invalid_runtime_config(name, "valid UTF-8 containing the documented value type")
}

fn parse_number(
    environment: &[(&str, &str)],
    name: &str,
    least: u64,
    most: u64,
    expected: &str,
) -> (r: Result<Option<u64>, CliError>)
    ensures
        match number(pairs(environment@), name@, least as nat, most as nat) {
            Reading::Absent => r matches Ok(None),
            Reading::Number(value) => r matches Ok(Some(parsed)) && parsed == value,
            Reading::Rejected => r matches Err(failure) && failure@ == runtime_config_error(
                name@,
                expected@,
            ),
        },
{
    match lookup(environment, name) {
        None => Ok(None),
        Some(value) => match parse_decimal(value, most) {
            Some(parsed) => if parsed < least {
                Err(invalid_runtime_config(name, expected))
            } else {
                Ok(Some(parsed))
            },
            None => Err(invalid_runtime_config(name, expected)),
        },
    }
}

/// Whether a value spells `false` in any mixture of cases.
fn spells_false(value: &str) -> (r: bool)
    ensures
        r == (value@.map_values(|c: char| ascii_lower(c)) == "false"@),
{
    let characters = chars_of(value);
    let mut lowered: Vec<char> = Vec::new();
    let ghost target = value@.map_values(|c: char| ascii_lower(c));
    let mut index: usize = 0;
    while index < characters.len()
        invariant
            characters@ == value@,
            index <= characters.len(),
            target == value@.map_values(|c: char| ascii_lower(c)),
            lowered@ == target.take(index as int),
        decreases characters.len() - index,
    {
        let c = characters[index];
        let lower = if 'A' <= c && c <= 'Z' {
            (c as u8 + 32) as char
        } else {
            c
        };
        lowered.push(lower);
        assert(target.take(index + 1) =~= target.take(index as int).push(target[index as int]));
        index += 1;
    }
    assert(target.take(index as int) =~= target);
    text::chars_equal(&lowered, &chars_of("false"))
}

/// The number, or the default where the variable is absent.
fn value_or(parsed: Option<u64>, default: u64) -> (r: u64)
    ensures
        r == (match parsed {
            Some(value) => value,
            None => default,
        }),
{
    match parsed {
        Some(value) => value,
        None => default,
    }
}

impl RuntimeConfig {
    /// The policy without any override.
    pub fn default_for(platform: Platform) -> (r: Self)
        ensures
            r@ == default_settings(platform),
    {
        RuntimeConfig {
            timeout: Duration::from_secs(1_800),
            concurrency: 5,
            max_retries: 3,
            retry_base_delay: Duration::from_millis(1_000),
            strict_env: true,
            daemon_enabled: platform.is_unix(),
            daemon_idle_timeout: Duration::from_secs(60),
            debug: false,
        }
    }

    /// Parses a deterministic environment snapshot. Numeric values must be
    /// unsigned base-10 integers with no signs, whitespace, or suffixes.
    pub fn parse(environment: &[(&str, &str)], platform: Platform) -> (r: Result<Self, CliError>)
        ensures
            match settings_of(pairs(environment@), platform) {
                Ok(settings) => r matches Ok(config) && config@ == settings,
                Err(failure) => r matches Err(failed) && failed@ == failure,
            },
    {
        let positive = "a positive decimal integer";
        let timeout = match parse_number(environment, "MCP_TIMEOUT", 1, u64::MAX, positive) {
            Ok(parsed) => Duration::from_secs(value_or(parsed, 1_800)),
            Err(failure) => return Err(failure),
        };
        let concurrency: usize = match parse_number(
            environment,
            "MCP_CONCURRENCY",
            1,
            usize::MAX as u64,
            positive,
        ) {
            Ok(parsed) => value_or(parsed, 5) as usize,
            Err(failure) => return Err(failure),
        };
        let max_retries: u32 = match parse_number(
            environment,
            "MCP_MAX_RETRIES",
            0,
            u32::MAX as u64,
            "a non-negative decimal integer",
        ) {
            Ok(parsed) => value_or(parsed, 3) as u32,
            Err(failure) => return Err(failure),
        };
        let retry_base_delay = match parse_number(
            environment,
            "MCP_RETRY_DELAY",
            1,
            u64::MAX,
            positive,
        ) {
            Ok(parsed) => Duration::from_millis(value_or(parsed, 1_000)),
            Err(failure) => return Err(failure),
        };
        let daemon_idle_timeout = match parse_number(
            environment,
            "MCP_DAEMON_TIMEOUT",
            1,
            u64::MAX,
            positive,
        ) {
            Ok(parsed) => Duration::from_secs(value_or(parsed, 60)),
            Err(failure) => return Err(failure),
        };
        let strict_env = match lookup(environment, "MCP_STRICT_ENV") {
            None => true,
            Some(value) => !spells_false(value) && !str_equal(value, "0"),
        };
        let daemon_disabled = match lookup(environment, "MCP_NO_DAEMON") {
            None => false,
            Some(value) => str_equal(value, "1"),
        };
        let debug = match lookup(environment, "MCP_DEBUG") {
            None => false,
            Some(value) => chars_of(value).len() > 0,
        };
        Ok(
            RuntimeConfig {
                timeout,
                concurrency,
                max_retries,
                retry_base_delay,
                strict_env,
                daemon_enabled: platform.is_unix() && !daemon_disabled,
                daemon_idle_timeout,
                debug,
            },
        )
    }

    /// Creates the one absolute command deadline for this runtime policy.
    pub fn deadline<C: Clock>(&self, clock: &C) -> (r: Deadline)
        ensures
            exists|now: Instant| #[trigger]
                call_ensures(C::now, (clock,), now) && r@ == deadline_after(now@, self.timeout@),
    {
        Deadline::after(clock, self.timeout)
    }
}

/// The point `timeout` after `now`, or the last point of the clock.
pub open spec fn deadline_after(now: nat, timeout: nat) -> nat {
    time::least(now + timeout, time::MAX_NANOS as nat)
}

/// Absolute command deadline. Layers can cap individual waits, but cannot
/// extend this deadline or create a fresh total budget.
#[derive(Clone, Copy, Debug, PartialEq, Eq, Structural)]
pub struct Deadline {
    expires_at: Instant,
}

impl View for Deadline {
    type V = nat;

    /// The point at which the deadline expires.
    closed spec fn view(&self) -> nat {
        self.expires_at@
    }
}

impl Deadline {
    /// There is a point at every offset up to the deadline.
    pub proof fn lemma_point_before(&self, offset: nat)
        requires
            offset <= self@,
        ensures
            exists|point: Instant| #[trigger] point@ == offset,
    {
        time::lemma_earlier_point(offset, self.expires_at);
    }

    pub fn new(expires_at: Instant) -> (r: Self)
        ensures
            r@ == expires_at@,
    {
        Deadline { expires_at }
    }

    pub fn after<C: Clock>(clock: &C, timeout: Duration) -> (r: Self)
        ensures
            exists|now: Instant| #[trigger]
                call_ensures(C::now, (clock,), now) && r@ == deadline_after(now@, timeout@),
    {
        let now = clock.now();
        Deadline::after_now(now, timeout)
    }

    /// The deadline `timeout` after a point in time.
    pub fn after_now(now: Instant, timeout: Duration) -> (r: Self)
        ensures
            r@ == deadline_after(now@, timeout@),
    {
        Deadline::new(now.saturating_add(timeout))
    }

    pub fn expires_at(self) -> (r: Instant)
        ensures
            r@ == self@,
    {
        self.expires_at
    }

    pub fn remaining<C: Clock>(self, clock: &C) -> (r: Duration)
        ensures
            exists|now: Instant| #[trigger]
                call_ensures(C::now, (clock,), now) && r@ == time::remainder(self@, now@),
    {
        let now = clock.now();
        self.remaining_at(now)
    }

    /// The budget that is left at a point in time.
    pub fn remaining_at(self, now: Instant) -> (r: Duration)
        ensures
            r@ == time::remainder(self@, now@),
            self@ <= time::MAX_NANOS,
    {
        self.expires_at.saturating_duration_since(now)
    }

    pub fn is_expired<C: Clock>(self, clock: &C) -> (r: bool)
        ensures
            exists|now: Instant| #[trigger]
                call_ensures(C::now, (clock,), now) && r == (now@ >= self@),
    {
        let now = clock.now();
        self.is_expired_at(now)
    }

    /// Whether the deadline has passed at a point in time.
    pub fn is_expired_at(self, now: Instant) -> (r: bool)
        ensures
            r == (now@ >= self@),
    {
        !now.is_before(&self.expires_at)
    }

    /// Returns the remaining total budget capped by an operation-local limit.
    pub fn remaining_capped<C: Clock>(self, clock: &C, local_cap: Duration) -> (r: Duration)
        ensures
            exists|now: Instant| #[trigger]
                call_ensures(C::now, (clock,), now) && r@ == time::least(
                    time::remainder(self@, now@),
                    local_cap@,
                ),
    {
        self.remaining(clock).min(local_cap)
    }

    /// Computes an operation-local absolute deadline without extending the
    /// command deadline.
    pub fn local_deadline<C: Clock>(self, clock: &C, local_cap: Duration) -> (r: Instant)
        ensures
            r@ <= self@,
            exists|now: Instant| #[trigger]
                call_ensures(C::now, (clock,), now) && r@ == time::least(
                    self@,
                    deadline_after(now@, local_cap@),
                ),
    {
        let now = clock.now();
        self.local_deadline_at(now, local_cap)
    }

    /// The operation-local deadline for a wait that starts at a point in time.
    pub fn local_deadline_at(self, now: Instant, local_cap: Duration) -> (r: Instant)
        ensures
            r@ == time::least(self@, deadline_after(now@, local_cap@)),
    {
        self.expires_at.min(now.saturating_add(local_cap))
    }
}

/// Injectable cancellation observation boundary.
pub trait CancellationToken {
    fn is_cancelled(&self) -> bool;
}

/// Cancellation state, set once and observed until the command ends.
#[derive(Clone, Copy, Debug, PartialEq, Eq, Structural)]
pub struct CancellationFlag {
    cancelled: bool,
}

impl View for CancellationFlag {
    type V = bool;

    closed spec fn view(&self) -> bool {
        self.cancelled
    }
}

impl Default for CancellationFlag {
    fn default() -> (r: Self)
        ensures
            !r@,
    {
        CancellationFlag { cancelled: false }
    }
}

impl CancellationFlag {
    pub fn cancel(&mut self)
        ensures
            final(self)@,
    {
        self.cancelled = true;
    }
}

impl CancellationToken for CancellationFlag {
    fn is_cancelled(&self) -> (r: bool)
        ensures
            r == self@,
    {
        self.cancelled
    }
}

/// Context shared by every operation belonging to one command.
#[derive(Clone, Debug)]
pub struct CommandContext<T: CancellationToken> {
    pub deadline: Deadline,
    pub cancellation: T,
}

impl<T: CancellationToken> CommandContext<T> {
    pub fn is_cancelled(&self) -> (r: bool)
        ensures
            call_ensures(T::is_cancelled, (&self.cancellation,), r),
    {
        self.cancellation.is_cancelled()
    }

    pub fn remaining<C: Clock>(&self, clock: &C) -> (r: Duration)
        ensures
            exists|now: Instant| #[trigger]
                call_ensures(C::now, (clock,), now) && r@ == time::remainder(
                    self.deadline@,
                    now@,
                ),
    {
        self.deadline.remaining(clock)
    }

    pub fn remaining_capped<C: Clock>(&self, clock: &C, local_cap: Duration) -> (r: Duration)
        ensures
            exists|now: Instant| #[trigger]
                call_ensures(C::now, (clock,), now) && r@ == time::least(
                    time::remainder(self.deadline@, now@),
                    local_cap@,
                ),
    {
        self.deadline.remaining_capped(clock, local_cap)
    }

    /// The point by which command-owned cleanup that starts at `now` must end.
    ///
    /// Cleanup deliberately does not observe the command cancellation token or
    /// the exhausted command deadline: cancellation and timeout are reasons to
    /// start cleanup, not reasons to skip it.
    pub fn cleanup_deadline(&self, now: Instant, grace: Duration) -> (r: Instant)
        ensures
            r@ == deadline_after(now@, grace@),
    {
        now.saturating_add(grace)
    }
}

/// Indicates that a best-effort cleanup exceeded its independent grace period.
#[derive(Clone, Copy, Debug, PartialEq, Eq, Structural)]
pub struct CleanupTimeout;

impl CleanupTimeout {
    pub fn display_text(&self) -> (r: &'static str)
        ensures
            r@ == "resource cleanup timed out"@,
    {
        "resource cleanup timed out"
    }
}

/// Injectable monotonic clock used by deadline and retry policy.
pub trait Clock {
    fn now(&self) -> Instant;
}

/// Injectable integer jitter source. Implementations must produce values in
/// the inclusive 7500..=12500 basis-point range.
pub trait JitterSource {
    fn factor_basis_points(&mut self) -> u16;
}

/// A wait that is capped for one operation never exceeds what is left of the
/// command, and never exceeds its own cap.
pub proof fn local_waits_never_extend_the_command(deadline: nat, now: nat, cap: nat)
    ensures
        time::least(time::remainder(deadline, now), cap) <= cap,
        time::least(deadline, deadline_after(now, cap)) <= deadline,
        now <= deadline ==> now + time::least(time::remainder(deadline, now), cap) <= deadline,
{
}

/// A budget only shrinks as time passes, and it is empty exactly when the
/// deadline has expired.
pub proof fn remaining_budget_shrinks(deadline: nat, earlier: nat, later: nat)
    requires
        earlier <= later,
    ensures
        time::remainder(deadline, later) <= time::remainder(deadline, earlier),
        time::remainder(deadline, later) == 0 <==> later >= deadline,
{
}

/// The entry at a position is the last one for its name, which is the one that
/// counts.
pub open spec fn is_last_entry(environment: Seq<(&str, &str)>, name: Seq<char>, at: int) -> bool {
    &&& 0 <= at < environment.len()
    &&& environment[at].0@ == name
    &&& forall|later: int|
        at < later < environment.len() ==> (#[trigger] environment[later]).0@ != name
}

/// No entry has the name.
pub open spec fn is_unset(environment: Seq<(&str, &str)>, name: Seq<char>) -> bool {
    forall|i: int| 0 <= i < environment.len() ==> (#[trigger] environment[i]).0@ != name
}

proof fn lemma_last_entry(environment: Seq<(&str, &str)>, name: Seq<char>, at: int)
    requires
        is_last_entry(environment, name, at),
    ensures
        variable(pairs(environment), name) == Some(environment[at].1@),
    decreases environment.len(),
{
    let all = pairs(environment);
    assert(all.last() == (environment.last().0@, environment.last().1@));
    if at < environment.len() - 1 {
        assert(environment[environment.len() - 1].0@ != name);
        lemma_last_entry(environment.drop_last(), name, at);
        assert(all.drop_last() =~= pairs(environment.drop_last()));
    }
}

proof fn lemma_unset(environment: Seq<(&str, &str)>, name: Seq<char>)
    requires
        is_unset(environment, name),
    ensures
        variable(pairs(environment), name) is None,
    decreases environment.len(),
{
    if environment.len() > 0 {
        let all = pairs(environment);
        assert(all.last() == (environment.last().0@, environment.last().1@));
        assert(environment[environment.len() - 1].0@ != name);
        lemma_unset(environment.drop_last(), name);
        assert(all.drop_last() =~= pairs(environment.drop_last()));
    }
}

/// The value of a numeral as the numeral of a number says: a number is written
/// and read in base ten, and zeros before it do not matter.
pub proof fn numerals_are_read_in_base_ten(value: nat, zeros: nat)
    ensures
        is_numeral(text::decimal(value)),
        numeral_value(text::decimal(value)) == value,
        numeral_value(Seq::new(zeros, |i: int| '0') + text::decimal(value)) == value,
    decreases value,
{
    lemma_decimal_reads(value);
    let padding = Seq::new(zeros, |i: int| '0');
    lemma_zeros(padding, text::decimal(value));
}

proof fn lemma_decimal_reads(value: nat)
    ensures
        is_numeral(text::decimal(value)),
        numeral_value(text::decimal(value)) == value,
    decreases value,
{
    reveal_with_fuel(numeral_value, 2);
    let shown = text::decimal(value);
    if value < 10 {
        assert(shown =~= seq![text::digit(value)]);
        assert(shown.drop_last() =~= Seq::<char>::empty());
    } else {
        lemma_decimal_reads(value / 10);
        let before = text::decimal(value / 10);
        assert(shown.drop_last() =~= before);
        assert forall|i: int| 0 <= i < shown.len() implies is_digit(#[trigger] shown[i]) by {
            if i < before.len() {
                assert(shown[i] == before[i]);
            }
        }
    }
}

proof fn lemma_zeros(zeros: Seq<char>, digits: Seq<char>)
    requires
        forall|i: int| 0 <= i < zeros.len() ==> #[trigger] zeros[i] == '0',
    ensures
        numeral_value(zeros + digits) == numeral_value(digits),
    decreases digits.len() + zeros.len(),
{
    let all = zeros + digits;
    if digits.len() > 0 {
        assert(all.drop_last() =~= zeros + digits.drop_last());
        lemma_zeros(zeros, digits.drop_last());
    } else if zeros.len() > 0 {
        assert(all.drop_last() =~= zeros.drop_last() + digits);
        assert(zeros[zeros.len() - 1] == '0');
        lemma_zeros(zeros.drop_last(), digits);
    }
}

/// A number that a variable sets is taken as it is, in the unit of the
/// variable, and the default holds only where the variable is not set. The last
/// entry for a name counts.
pub proof fn overrides_are_taken_as_they_are(
    environment: &[(&str, &str)],
    platform: Platform,
    result: Result<RuntimeConfig, CliError>,
    at: int,
)
    requires
        call_ensures(RuntimeConfig::parse, (environment, platform), result),
        result is Ok,
    ensures
        is_last_entry(environment@, "MCP_TIMEOUT"@, at) ==> result->Ok_0.timeout@
            == numeral_value(environment@[at].1@) * 1_000_000_000,
        is_last_entry(environment@, "MCP_CONCURRENCY"@, at) ==> result->Ok_0.concurrency
            == numeral_value(environment@[at].1@),
        is_last_entry(environment@, "MCP_MAX_RETRIES"@, at) ==> result->Ok_0.max_retries
            == numeral_value(environment@[at].1@),
        is_last_entry(environment@, "MCP_RETRY_DELAY"@, at) ==> result->Ok_0.retry_base_delay@
            == numeral_value(environment@[at].1@) * 1_000_000,
        is_last_entry(environment@, "MCP_DAEMON_TIMEOUT"@, at)
            ==> result->Ok_0.daemon_idle_timeout@ == numeral_value(environment@[at].1@)
            * 1_000_000_000,
        is_unset(environment@, "MCP_TIMEOUT"@) ==> result->Ok_0.timeout@ == 1_800_000_000_000,
        is_unset(environment@, "MCP_CONCURRENCY"@) ==> result->Ok_0.concurrency == 5,
        is_unset(environment@, "MCP_MAX_RETRIES"@) ==> result->Ok_0.max_retries == 3,
        is_unset(environment@, "MCP_RETRY_DELAY"@) ==> result->Ok_0.retry_base_delay@
            == 1_000_000_000,
        is_unset(environment@, "MCP_DAEMON_TIMEOUT"@) ==> result->Ok_0.daemon_idle_timeout@
            == 60_000_000_000,
{
    let names = seq![
        "MCP_TIMEOUT"@,
        "MCP_CONCURRENCY"@,
        "MCP_MAX_RETRIES"@,
        "MCP_RETRY_DELAY"@,
        "MCP_DAEMON_TIMEOUT"@,
    ];
    assert forall|k: int| 0 <= k < 5 implies (is_last_entry(environment@, #[trigger] names[k], at)
        ==> variable(pairs(environment@), names[k]) == Some(environment@[at].1@)) && (is_unset(
        environment@,
        names[k],
    ) ==> variable(pairs(environment@), names[k]) is None) by {
        if is_last_entry(environment@, names[k], at) {
            lemma_last_entry(environment@, names[k], at);
        }
        if is_unset(environment@, names[k]) {
            lemma_unset(environment@, names[k]);
        }
    }
    assert(names[0] == "MCP_TIMEOUT"@ && names[1] == "MCP_CONCURRENCY"@ && names[2]
        == "MCP_MAX_RETRIES"@ && names[3] == "MCP_RETRY_DELAY"@ && names[4]
        == "MCP_DAEMON_TIMEOUT"@);
}

/// The value is a decimal numeral within the limits of a variable.
pub open spec fn acceptable(value: Seq<char>, smallest: nat, largest: nat) -> bool {
    &&& value.len() > 0
    &&& forall|i: int| 0 <= i < value.len() ==> '0' <= #[trigger] value[i] <= '9'
    &&& smallest <= numeral_value(value) <= largest
}

/// A policy is refused exactly if some number that is set is not a decimal
/// numeral within its limits: nothing is replaced by a default in silence, and
/// nothing else is refused. Only retries can be zero.
pub proof fn policies_are_refused_for_bad_numbers_only(
    environment: &[(&str, &str)],
    platform: Platform,
    result: Result<RuntimeConfig, CliError>,
)
    requires
        call_ensures(RuntimeConfig::parse, (environment, platform), result),
    ensures
        result is Err <==> exists|at: int|
            #![trigger environment@[at]]
            {
                ||| is_last_entry(environment@, "MCP_TIMEOUT"@, at) && !acceptable(
                    environment@[at].1@,
                    1,
                    u64::MAX as nat,
                )
                ||| is_last_entry(environment@, "MCP_CONCURRENCY"@, at) && !acceptable(
                    environment@[at].1@,
                    1,
                    usize::MAX as nat,
                )
                ||| is_last_entry(environment@, "MCP_MAX_RETRIES"@, at) && !acceptable(
                    environment@[at].1@,
                    0,
                    u32::MAX as nat,
                )
                ||| is_last_entry(environment@, "MCP_RETRY_DELAY"@, at) && !acceptable(
                    environment@[at].1@,
                    1,
                    u64::MAX as nat,
                )
                ||| is_last_entry(environment@, "MCP_DAEMON_TIMEOUT"@, at) && !acceptable(
                    environment@[at].1@,
                    1,
                    u64::MAX as nat,
                )
            },
        result matches Err(failure) ==> failure@.kind == ErrorKind::InvalidRuntimeConfig
            && failure@.message == "Invalid runtime configuration"@ && failure@.details is Some,
{
    lemma_rejected(environment@, "MCP_TIMEOUT"@, 1, u64::MAX as nat);
    lemma_rejected(environment@, "MCP_CONCURRENCY"@, 1, usize::MAX as nat);
    lemma_rejected(environment@, "MCP_MAX_RETRIES"@, 0, u32::MAX as nat);
    lemma_rejected(environment@, "MCP_RETRY_DELAY"@, 1, u64::MAX as nat);
    lemma_rejected(environment@, "MCP_DAEMON_TIMEOUT"@, 1, u64::MAX as nat);
}

proof fn lemma_found(environment: Seq<(&str, &str)>, name: Seq<char>)
    ensures
        is_unset(environment, name) || exists|at: int|
            #![trigger environment[at]]
            is_last_entry(environment, name, at),
    decreases environment.len(),
{
    if environment.len() > 0 {
        let last = environment.len() - 1;
        if environment[last].0@ == name {
            assert(is_last_entry(environment, name, last));
        } else {
            let earlier = environment.drop_last();
            lemma_found(earlier, name);
            if is_unset(earlier, name) {
                assert forall|i: int| 0 <= i < environment.len() implies (
                #[trigger] environment[i]).0@ != name by {
                    if i < last {
                        assert(earlier[i].0@ != name);
                    }
                }
            } else {
                let at = choose|at: int|
                    #![trigger earlier[at]]
                    is_last_entry(earlier, name, at);
                assert forall|later: int| at < later < environment.len() implies (
                #[trigger] environment[later]).0@ != name by {
                    if later < last {
                        assert(earlier[later].0@ != name);
                    }
                }
                assert(environment[at] == earlier[at]);
                assert(is_last_entry(environment, name, at));
            }
        }
    }
}

proof fn lemma_rejected(environment: Seq<(&str, &str)>, name: Seq<char>, smallest: nat, largest: nat)
    ensures
        number(pairs(environment), name, smallest, largest) is Rejected <==> exists|at: int|
            #![trigger environment[at]]
            is_last_entry(environment, name, at) && !acceptable(
                environment[at].1@,
                smallest,
                largest,
            ),
{
    assert forall|at: int|
        #![trigger environment[at]]
        is_last_entry(environment, name, at) implies variable(pairs(environment), name) == Some(
        environment[at].1@,
    ) by {
        lemma_last_entry(environment, name, at);
    }
    assert forall|value: Seq<char>| #[trigger]
        is_numeral(value) <==> value.len() > 0 && forall|i: int|
            0 <= i < value.len() ==> '0' <= #[trigger] value[i] <= '9' by {
        if forall|i: int| 0 <= i < value.len() ==> '0' <= #[trigger] value[i] <= '9' {
            assert forall|i: int| 0 <= i < value.len() implies is_digit(#[trigger] value[i]) by {}
        }
        if is_numeral(value) {
            assert forall|i: int| 0 <= i < value.len() implies '0' <= #[trigger] value[i]
                <= '9' by {
                assert(is_digit(value[i]));
            }
        }
    }
    lemma_found(environment, name);
    if is_unset(environment, name) {
        lemma_unset(environment, name);
        assert forall|at: int|
            #![trigger environment[at]]
            !is_last_entry(environment, name, at) by {}
    } else {
        let at = choose|at: int|
            #![trigger environment[at]]
            is_last_entry(environment, name, at);
        assert(is_numeral(environment[at].1@) || !is_numeral(environment[at].1@));
    }
}

/// The switches of a policy: missing variables are errors unless the variable
/// says `0` or spells `false` in any case; the daemon is used wherever it can be
/// unless the variable says exactly `1`; and diagnostics are shown for any value
/// that is not empty.
pub proof fn switches_follow_their_variables(
    environment: &[(&str, &str)],
    platform: Platform,
    result: Result<RuntimeConfig, CliError>,
    at: int,
)
    requires
        call_ensures(RuntimeConfig::parse, (environment, platform), result),
        result is Ok,
    ensures
        is_unset(environment@, "MCP_STRICT_ENV"@) ==> result->Ok_0.strict_env,
        is_last_entry(environment@, "MCP_STRICT_ENV"@, at) && environment@[at].1@ == "0"@
            ==> !result->Ok_0.strict_env,
        is_last_entry(environment@, "MCP_STRICT_ENV"@, at) && spelled_false(environment@[at].1@)
            ==> !result->Ok_0.strict_env,
        is_last_entry(environment@, "MCP_STRICT_ENV"@, at) && environment@[at].1@ != "0"@
            && !spelled_false(environment@[at].1@) ==> result->Ok_0.strict_env,
        platform == Platform::Windows || platform == Platform::Other
            ==> !result->Ok_0.daemon_enabled,
        is_last_entry(environment@, "MCP_NO_DAEMON"@, at) && environment@[at].1@ == "1"@
            ==> !result->Ok_0.daemon_enabled,
        platform != Platform::Windows && platform != Platform::Other && (is_unset(
            environment@,
            "MCP_NO_DAEMON"@,
        ) || (is_last_entry(environment@, "MCP_NO_DAEMON"@, at) && environment@[at].1@ != "1"@))
            ==> result->Ok_0.daemon_enabled,
        is_unset(environment@, "MCP_DEBUG"@) ==> !result->Ok_0.debug,
        is_last_entry(environment@, "MCP_DEBUG"@, at) ==> result->Ok_0.debug == (
        environment@[at].1@.len() > 0),
{
    let names = seq!["MCP_STRICT_ENV"@, "MCP_NO_DAEMON"@, "MCP_DEBUG"@];
    assert forall|k: int| 0 <= k < 3 implies (is_last_entry(environment@, #[trigger] names[k], at)
        ==> variable(pairs(environment@), names[k]) == Some(environment@[at].1@)) && (is_unset(
        environment@,
        names[k],
    ) ==> variable(pairs(environment@), names[k]) is None) by {
        if is_last_entry(environment@, names[k], at) {
            lemma_last_entry(environment@, names[k], at);
        }
        if is_unset(environment@, names[k]) {
            lemma_unset(environment@, names[k]);
        }
    }
    assert(names[0] == "MCP_STRICT_ENV"@ && names[1] == "MCP_NO_DAEMON"@ && names[2]
        == "MCP_DEBUG"@);
    if 0 <= at < environment@.len() {
        lemma_spelled_false(environment@[at].1@);
    }
}

/// The five letters of `false`, each in either case.
pub open spec fn spelled_false(value: Seq<char>) -> bool {
    &&& value.len() == 5
    &&& value[0] == 'f' || value[0] == 'F'
    &&& value[1] == 'a' || value[1] == 'A'
    &&& value[2] == 'l' || value[2] == 'L'
    &&& value[3] == 's' || value[3] == 'S'
    &&& value[4] == 'e' || value[4] == 'E'
}

proof fn lemma_spelled_false(value: Seq<char>)
    ensures
        spelled_false(value) <==> value.map_values(|c: char| ascii_lower(c)) == "false"@,
{
    reveal_strlit("false");
    let lowered = value.map_values(|c: char| ascii_lower(c));
    let word = "false"@;
    assert(word.len() == 5 && word[0] == 'f' && word[1] == 'a' && word[2] == 'l' && word[3] == 's'
        && word[4] == 'e');
    if lowered == word {
        assert(lowered[0] == ascii_lower(value[0]) && lowered[1] == ascii_lower(value[1])
            && lowered[2] == ascii_lower(value[2]) && lowered[3] == ascii_lower(value[3])
            && lowered[4] == ascii_lower(value[4]));
    }
    if spelled_false(value) {
        assert(lowered =~= word);
    }
}

/// A deadline lies exactly its timeout ahead, unless the clock ends before, and
/// what is left of it is exactly the time until then.
pub proof fn deadlines_lie_their_timeout_ahead(
    now: Instant,
    timeout: Duration,
    deadline: Deadline,
    later: Instant,
    left: Duration,
    expired: bool,
    cap: Duration,
    local: Instant,
)
    requires
        call_ensures(Deadline::after_now, (now, timeout), deadline),
        call_ensures(Deadline::remaining_at, (deadline, later), left),
        call_ensures(Deadline::is_expired_at, (deadline, later), expired),
        call_ensures(Deadline::local_deadline_at, (deadline, later, cap), local),
    ensures
        now@ + timeout@ <= time::MAX_NANOS ==> deadline@ == now@ + timeout@,
        now@ + timeout@ > time::MAX_NANOS ==> deadline@ == time::MAX_NANOS,
        expired <==> later@ >= deadline@,
        !expired ==> later@ + left@ == deadline@,
        expired ==> left@ == 0,
        local@ <= deadline@,
        later@ + cap@ <= deadline@ ==> local@ == later@ + cap@,
        later@ + cap@ > deadline@ ==> local@ == deadline@,
{
    assert(deadline@ <= time::MAX_NANOS);
}

/// A variable is set to something that is no number within its limits.
pub open spec fn is_refused(
    environment: Seq<(&str, &str)>,
    name: Seq<char>,
    smallest: nat,
    largest: nat,
) -> bool {
    exists|at: int|
        #![trigger environment[at]]
        is_last_entry(environment, name, at) && !acceptable(environment[at].1@, smallest, largest)
}

/// A refused policy names the first variable at fault, in the order timeout,
/// concurrency, retries, retry delay and daemon timeout, and what it should be.
pub proof fn refusals_name_the_first_variable_at_fault(
    environment: &[(&str, &str)],
    platform: Platform,
    result: Result<RuntimeConfig, CliError>,
)
    requires
        call_ensures(RuntimeConfig::parse, (environment, platform), result),
    ensures
        ({
            let timeout = is_refused(environment@, "MCP_TIMEOUT"@, 1, u64::MAX as nat);
            let concurrency = is_refused(environment@, "MCP_CONCURRENCY"@, 1, usize::MAX as nat);
            let retries = is_refused(environment@, "MCP_MAX_RETRIES"@, 0, u32::MAX as nat);
            let delay = is_refused(environment@, "MCP_RETRY_DELAY"@, 1, u64::MAX as nat);
            let idle = is_refused(environment@, "MCP_DAEMON_TIMEOUT"@, 1, u64::MAX as nat);
            &&& timeout ==> result is Err && result->Err_0@.details == Some(
                "MCP_TIMEOUT"@ + " must be "@ + "a positive decimal integer"@,
            )
            &&& !timeout && concurrency ==> result is Err && result->Err_0@.details == Some(
                "MCP_CONCURRENCY"@ + " must be "@ + "a positive decimal integer"@,
            )
            &&& !timeout && !concurrency && retries ==> result is Err && result->Err_0@.details
                == Some("MCP_MAX_RETRIES"@ + " must be "@ + "a non-negative decimal integer"@)
            &&& !timeout && !concurrency && !retries && delay ==> result is Err
                && result->Err_0@.details == Some(
                "MCP_RETRY_DELAY"@ + " must be "@ + "a positive decimal integer"@,
            )
            &&& !timeout && !concurrency && !retries && !delay && idle ==> result is Err
                && result->Err_0@.details == Some(
                "MCP_DAEMON_TIMEOUT"@ + " must be "@ + "a positive decimal integer"@,
            )
        }),
{
    lemma_rejected(environment@, "MCP_TIMEOUT"@, 1, u64::MAX as nat);
    lemma_rejected(environment@, "MCP_CONCURRENCY"@, 1, usize::MAX as nat);
    lemma_rejected(environment@, "MCP_MAX_RETRIES"@, 0, u32::MAX as nat);
    lemma_rejected(environment@, "MCP_RETRY_DELAY"@, 1, u64::MAX as nat);
    lemma_rejected(environment@, "MCP_DAEMON_TIMEOUT"@, 1, u64::MAX as nat);
}

/// Without any variable a command has half an hour, five workers, three retries
/// from one second on and a daemon that idles for a minute, where the platform has
/// daemons.
pub proof fn defaults_are_as_documented(
    platform: Platform,
    config: RuntimeConfig,
    has_daemons: bool,
    name: &str,
    refused: CliError,
)
    requires
        call_ensures(RuntimeConfig::default_for, (platform,), config),
        call_ensures(Platform::is_unix, (platform,), has_daemons),
        call_ensures(non_utf8_variable, (name,), refused),
    ensures
        config.timeout@ == 1_800_000_000_000,
        config.concurrency == 5,
        config.max_retries == 3,
        config.retry_base_delay@ == 1_000_000_000,
        config.daemon_idle_timeout@ == 60_000_000_000,
        config.strict_env,
        !config.debug,
        config.daemon_enabled == has_daemons,
        has_daemons <==> !(platform is Windows || platform is Other),
        refused@.kind == ErrorKind::InvalidRuntimeConfig,
        refused@.details == Some(
            name@ + " must be "@ + "valid UTF-8 containing the documented value type"@,
        ),
{
}

} // verus!
