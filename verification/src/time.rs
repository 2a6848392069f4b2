//! Spans of time and points on a monotonic clock.

use vstd::prelude::*;

verus! {

/// The largest span in nanoseconds: `u64::MAX` seconds and 999999999 nanoseconds.
pub const MAX_NANOS: u128 = 18_446_744_073_709_551_615_999_999_999;

/// A span of time with nanosecond resolution.
#[derive(Clone, Copy, Debug, PartialEq, Eq, PartialOrd, Ord, Hash, Structural)]
pub struct Duration {
    nanos: u128,
}

/// A point on a monotonic clock, held as the time since the clock's origin.
#[derive(Clone, Copy, Debug, PartialEq, Eq, PartialOrd, Ord, Hash, Structural)]
pub struct Instant {
    since_origin: Duration,
}

impl View for Duration {
    type V = nat;

    /// The span in nanoseconds.
    closed spec fn view(&self) -> nat {
        self.nanos as nat
    }
}

impl View for Instant {
    type V = nat;

    /// The nanoseconds since the clock's origin.
    closed spec fn view(&self) -> nat {
        self.since_origin@
    }
}

/// Two spans of the same length are the same span.
pub broadcast proof fn lemma_duration_ext(left: Duration, right: Duration)
    requires
        #[trigger] left@ == #[trigger] right@,
    ensures
        left == right,
{
}

/// Two points with the same offset are the same point.
pub broadcast proof fn lemma_instant_ext(left: Instant, right: Instant)
    requires
        #[trigger] left@ == #[trigger] right@,
    ensures
        left == right,
{
}

/// There is a span of every length up to the largest one.
pub proof fn lemma_every_span(nanos: nat)
    requires
        nanos <= MAX_NANOS,
    ensures
        exists|span: Duration| #[trigger] span@ == nanos,
{
    let span = Duration { nanos: nanos as u128 };
    assert(span@ == nanos);
}

/// There is a point at every offset up to that of a given point.
pub proof fn lemma_earlier_point(offset: nat, last: Instant)
    requires
        offset <= last@,
    ensures
        exists|point: Instant| #[trigger] point@ == offset,
{
    let point = Instant { since_origin: Duration { nanos: offset as u128 } };
    assert(point@ == offset);
}

/// The smaller of two amounts.
pub open spec fn least(left: nat, right: nat) -> nat {
    if left <= right {
        left
    } else {
        right
    }
}

/// What remains of `left` after taking `right` away, at least nothing.
pub open spec fn remainder(left: nat, right: nat) -> nat {
    if left <= right {
        0
    } else {
        (left - right) as nat
    }
}

impl Duration {
    /// The empty span.
    pub fn zero() -> (r: Self)
        ensures
            r@ == 0,
    {
        Duration { nanos: 0 }
    }

    /// The largest span.
    pub fn max() -> (r: Self)
        ensures
            r@ == MAX_NANOS,
    {
        Duration { nanos: MAX_NANOS }
    }

    #[verifier::type_invariant]
    spec fn type_inv(&self) -> bool {
        self.nanos <= MAX_NANOS
    }

    pub fn from_secs(seconds: u64) -> (r: Self)
        ensures
            r@ == seconds * 1_000_000_000,
    {
        Duration { nanos: seconds as u128 * 1_000_000_000 }
    }

    pub fn from_millis(milliseconds: u64) -> (r: Self)
        ensures
            r@ == milliseconds * 1_000_000,
    {
        Duration { nanos: milliseconds as u128 * 1_000_000 }
    }

    pub fn from_nanos(nanoseconds: u64) -> (r: Self)
        ensures
            r@ == nanoseconds,
    {
        Duration { nanos: nanoseconds as u128 }
    }

    /// The span of the given length, or the largest span if that is shorter.
    pub fn from_nanos_saturating(nanoseconds: u128) -> (r: Self)
        ensures
            r@ == least(nanoseconds as nat, MAX_NANOS as nat),
    {
        if nanoseconds <= MAX_NANOS {
            Duration { nanos: nanoseconds }
        } else {
            Duration { nanos: MAX_NANOS }
        }
    }

    pub fn as_nanos(&self) -> (r: u128)
        ensures
            r == self@,
            r <= MAX_NANOS,
    {
        proof {
            use_type_invariant(self);
        }
        self.nanos
    }

    pub fn is_zero(&self) -> (r: bool)
        ensures
            r == (self@ == 0),
    {
        self.nanos == 0
    }

    /// The shorter of two spans.
    pub fn min(self, other: Self) -> (r: Self)
        ensures
            r@ == least(self@, other@),
    {
        if self.nanos <= other.nanos {
            self
        } else {
            other
        }
    }

    /// Whether this span is shorter than the other one.
    pub fn is_shorter(&self, other: &Self) -> (r: bool)
        ensures
            r == (self@ < other@),
    {
        self.nanos < other.nanos
    }
}

impl Instant {
    /// The point that lies the given span after the clock's origin.
    pub fn at(since_origin: Duration) -> (r: Self)
        ensures
            r@ == since_origin@,
    {
        Instant { since_origin }
    }

    /// The span between the clock's origin and this point.
    pub fn since_origin(&self) -> (r: Duration)
        ensures
            r@ == self@,
    {
        self.since_origin
    }

    /// The point `duration` later, or the last point of the clock when that
    /// point does not exist.
    pub fn saturating_add(self, duration: Duration) -> (r: Self)
        ensures
            r@ == least(self@ + duration@, MAX_NANOS as nat),
    {
        let start = self.since_origin.as_nanos();
        let span = duration.as_nanos();
        Instant { since_origin: Duration::from_nanos_saturating(start + span) }
    }

    /// The time from `earlier` to this point, or zero when `earlier` is later.
    pub fn saturating_duration_since(self, earlier: Instant) -> (r: Duration)
        ensures
            r@ == remainder(self@, earlier@),
            self@ <= MAX_NANOS,
    {
        let end = self.since_origin.as_nanos();
        let start = earlier.since_origin.as_nanos();
        if end <= start {
            Duration::from_nanos(0)
        } else {
            Duration::from_nanos_saturating(end - start)
        }
    }

    /// The earlier of two points.
    pub fn min(self, other: Self) -> (r: Self)
        ensures
            r@ == least(self@, other@),
    {
        if self.since_origin.as_nanos() <= other.since_origin.as_nanos() {
            self
        } else {
            other
        }
    }

    /// Whether this point lies before the other one.
    pub fn is_before(&self, other: &Self) -> (r: bool)
        ensures
            r == (self@ < other@),
    {
        self.since_origin.as_nanos() < other.since_origin.as_nanos()
    }
}

/// The last second after the epoch that a system time can hold.
pub const MAX_EPOCH_SECONDS: u64 = 9_223_372_036_854_775_807;

/// A wall-clock time at or after the Unix epoch.
#[derive(Clone, Copy, Debug, PartialEq, Eq, Structural)]
pub struct SystemTime {
    /// Whole seconds after the epoch.
    pub seconds: u64,
    /// The rest, below one second.
    pub nanoseconds: u32,
}

/// The time a number of nanoseconds after the epoch, where it can be held.
pub open spec fn epoch_time(nanoseconds: nat) -> Option<SystemTime> {
    if nanoseconds / 1_000_000_000 <= MAX_EPOCH_SECONDS {
        Some(
            SystemTime {
                seconds: (nanoseconds / 1_000_000_000) as u64,
                nanoseconds: (nanoseconds % 1_000_000_000) as u32,
            },
        )
    } else {
        None
    }
}

impl SystemTime {
    /// The time `seconds` and then `nanoseconds` after the epoch.
    pub fn after_epoch(seconds: u64, nanoseconds: u64) -> (r: Option<SystemTime>)
        ensures
            r == epoch_time(seconds as nat * 1_000_000_000 + nanoseconds as nat),
    {
        let total: u128 = seconds as u128 * 1_000_000_000 + nanoseconds as u128;
        let whole = total / 1_000_000_000;
        if whole <= MAX_EPOCH_SECONDS as u128 {
            Some(
                SystemTime {
                    seconds: whole as u64,
                    nanoseconds: (total % 1_000_000_000) as u32,
                },
            )
        } else {
            None
        }
    }

    /// The time `seconds` and then `microseconds` after the epoch.
    pub fn after_epoch_micros(seconds: u64, microseconds: u64) -> (r: Option<SystemTime>)
        ensures
            r == epoch_time(seconds as nat * 1_000_000_000 + microseconds as nat * 1_000),
    {
        let total: u128 = seconds as u128 * 1_000_000_000 + microseconds as u128 * 1_000;
        let whole = total / 1_000_000_000;
        if whole <= MAX_EPOCH_SECONDS as u128 {
            Some(
                SystemTime {
                    seconds: whole as u64,
                    nanoseconds: (total % 1_000_000_000) as u32,
                },
            )
        } else {
            None
        }
    }
}

/// The shorter of two spans is one of them and not longer than either; a point
/// moves on by the whole span as long as it can be held, and the span between two
/// points is what leads from one to the other.
pub proof fn spans_add_up(
    left: Duration,
    right: Duration,
    shorter: Duration,
    point: Instant,
    later: Instant,
    between: Duration,
    back: Duration,
)
    requires
        call_ensures(Duration::min, (left, right), shorter),
        call_ensures(Instant::saturating_add, (point, left), later),
        call_ensures(Instant::saturating_duration_since, (later, point), between),
        call_ensures(Instant::saturating_duration_since, (point, later), back),
    ensures
        shorter@ <= left@ && shorter@ <= right@ && (shorter@ == left@ || shorter@ == right@),
        point@ + left@ <= 18_446_744_073_709_551_615_999_999_999 ==> later@ == point@ + left@
            && between@ == left@,
        point@ + left@ > 18_446_744_073_709_551_615_999_999_999 ==> later@
            == 18_446_744_073_709_551_615_999_999_999,
        later@ >= point@ ==> back@ == 0,
{
}

/// A time after the epoch is exact, below one second in its nanoseconds, and
/// refused only where its seconds cannot be held.
pub proof fn times_are_exact(
    seconds: u64,
    nanoseconds: u64,
    r: Option<SystemTime>,
    microseconds: u64,
    micros: Option<SystemTime>,
)
    requires
        call_ensures(SystemTime::after_epoch, (seconds, nanoseconds), r),
        call_ensures(SystemTime::after_epoch_micros, (seconds, microseconds), micros),
    ensures
        r matches Some(time) ==> time.nanoseconds < 1_000_000_000 && time.seconds * 1_000_000_000
            + time.nanoseconds == seconds * 1_000_000_000 + nanoseconds,
        micros matches Some(time) ==> time.nanoseconds < 1_000_000_000 && time.seconds
            * 1_000_000_000 + time.nanoseconds == seconds * 1_000_000_000 + microseconds * 1_000,
        r is None <==> seconds * 1_000_000_000 + nanoseconds >= 9_223_372_036_854_775_808
            * 1_000_000_000,
        micros is None <==> seconds * 1_000_000_000 + microseconds * 1_000
            >= 9_223_372_036_854_775_808 * 1_000_000_000,
{
}

} // verus!
