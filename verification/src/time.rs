//! Points in time and spans between them, counted in whole nanoseconds.

use vstd::prelude::*;

verus! {

/// Nanoseconds in one microsecond.
pub const NANOS_PER_MICRO: u128 = 1_000;

/// Nanoseconds in one millisecond.
pub const NANOS_PER_MILLI: u128 = 1_000_000;

/// Nanoseconds in one second.
pub const NANOS_PER_SEC: u128 = 1_000_000_000;

/// A span of time.
#[derive(Debug, Clone, Copy, PartialEq, Eq, Structural, PartialOrd, Ord, Hash)]
pub struct Duration {
    /// Length of the span in nanoseconds.
    pub nanos: u128,
}

/// A point on a monotonic clock, counted from the moment the clock was started.
#[derive(Debug, Clone, Copy, PartialEq, Eq, Structural, PartialOrd, Ord, Hash)]
pub struct Instant {
    /// Nanoseconds since the clock was started.
    pub nanos: u128,
}

/// The span from `earlier` to `later`, or the empty span when `later` does not come after.
pub open spec fn span_since(later: Instant, earlier: Instant) -> Duration {
    Duration {
        nanos: if later.nanos > earlier.nanos {
            (later.nanos - earlier.nanos) as u128
        } else {
            0
        },
    }
}

/// The low 64 bits of a span counted in whole microseconds.
pub open spec fn span_micros(d: Duration) -> u64 {
    ((d.nanos as nat / 1_000) % 0x1_0000_0000_0000_0000) as u64
}

impl Duration {
    /// The empty span.
    pub fn zero() -> (d: Self)
        ensures
            d.nanos == 0,
    {
        Duration { nanos: 0 }
    }

    /// A span of whole seconds.
    pub fn from_secs(secs: u64) -> (d: Self)
        ensures
            d.nanos == secs * NANOS_PER_SEC,
            d.nanos == secs * 1_000_000_000,
    {
        assert(secs * 1_000_000_000 <= u128::MAX);
        Duration { nanos: secs as u128 * NANOS_PER_SEC }
    }

    /// A span of whole milliseconds.
    pub fn from_millis(millis: u64) -> (d: Self)
        ensures
            d.nanos == millis * NANOS_PER_MILLI,
            d.nanos == millis * 1_000_000,
    {
        assert(millis * 1_000_000 <= u128::MAX);
        Duration { nanos: millis as u128 * NANOS_PER_MILLI }
    }

    /// A span of whole microseconds.
    pub fn from_micros(micros: u64) -> (d: Self)
        ensures
            d.nanos == micros * NANOS_PER_MICRO,
            d.nanos == micros * 1_000,
    {
        assert(micros * 1_000 <= u128::MAX);
        Duration { nanos: micros as u128 * NANOS_PER_MICRO }
    }

    /// The number of whole seconds in the span.
    pub fn as_secs(&self) -> (secs: u128)
        ensures
            secs == self.nanos / NANOS_PER_SEC,
            secs * 1_000_000_000 <= self.nanos < secs * 1_000_000_000 + 1_000_000_000,
    {
        self.nanos / NANOS_PER_SEC
    }

    /// The number of whole milliseconds in the span.
    pub fn as_millis(&self) -> (millis: u128)
        ensures
            millis == self.nanos / NANOS_PER_MILLI,
            millis * 1_000_000 <= self.nanos < millis * 1_000_000 + 1_000_000,
    {
        self.nanos / NANOS_PER_MILLI
    }

    /// The number of whole microseconds in the span.
    pub fn as_micros(&self) -> (micros: u128)
        ensures
            micros == self.nanos / NANOS_PER_MICRO,
            micros * 1_000 <= self.nanos < micros * 1_000 + 1_000,
    {
        self.nanos / NANOS_PER_MICRO
    }
}

impl Instant {
    /// The span since `earlier`, empty when `earlier` lies ahead.
    pub fn saturating_duration_since(&self, earlier: Instant) -> (d: Duration)
        ensures
            d == span_since(*self, earlier),
            self.nanos >= earlier.nanos ==> earlier.nanos + d.nanos == self.nanos,
            self.nanos < earlier.nanos ==> d.nanos == 0,
    {
        if self.nanos > earlier.nanos {
            Duration { nanos: self.nanos - earlier.nanos }
        } else {
            Duration { nanos: 0 }
        }
    }
}

/// A span leads from the earlier time to the later one; there is none back in time.
pub proof fn spans_lead_from_earlier_to_later(later: Instant, earlier: Instant)
    ensures
        later.nanos >= earlier.nanos ==> earlier.nanos + span_since(later, earlier).nanos
            == later.nanos,
        later.nanos < earlier.nanos ==> span_since(later, earlier).nanos == 0,
{
}

/// A span's microseconds fill it but for less than one more.
pub proof fn micros_fill_their_span(d: Duration)
    requires
        d.nanos < 18_446_744_073_709_551_616_000,
    ensures
        span_micros(d) * 1_000 <= d.nanos < (span_micros(d) + 1) * 1_000,
{
}

/// Microseconds are kept in 64 bits: what is longer by all that these count gives the same.
pub proof fn micros_wrap_around(d: Duration, longer: Duration)
    requires
        longer.nanos == d.nanos + 18_446_744_073_709_551_616_000,
    ensures
        span_micros(longer) == span_micros(d),
{
    assert(longer.nanos as nat / 1_000 == d.nanos as nat / 1_000 + 0x1_0000_0000_0000_0000);
}

/// A reading of the machine's monotonic clock.
#[verifier::external_type_specification]
#[verifier::external_body]
pub struct ExStdInstant(std::time::Instant);

/// A monotonic clock, which reads as the time since it was started.
#[derive(Debug, Clone, Copy)]
pub struct Clock {
    started: std::time::Instant,
}

/// `std::time::Instant::now`: the present reading. Nothing is promised of it.
#[verifier::external_body]
fn machine_now() -> std::time::Instant {
    std::time::Instant::now()
}

/// `std::time::Instant::elapsed`, in nanoseconds: how long ago a reading was made. Nothing is
/// promised of it.
#[verifier::external_body]
fn nanos_elapsed(since: std::time::Instant) -> u128 {
    since.elapsed().as_nanos()
}

/// Calls a function without arguments, and tells that what comes of it is what it gave.
fn call<F: Fn() -> std::time::Instant>(f: F) -> (r: std::time::Instant)
    requires
        f.requires(()),
    ensures
        f.ensures((), r),
{
    f()
}

/// Calls a function on a reading, and tells that what comes of it is what it gave.
fn call_on<F: Fn(std::time::Instant) -> u128>(f: F, since: std::time::Instant) -> (r: u128)
    requires
        f.requires((since,)),
    ensures
        f.ensures((since,), r),
{
    f(since)
}

impl Clock {
    /// The clock was started at a reading of the machine's clock.
    pub closed spec fn is_started(self) -> bool {
        call_ensures(machine_now, (), self.started)
    }

    /// The clock was read, and showed this time: what the machine's clock told to have passed
    /// since it was started.
    pub closed spec fn showed(self, time: Instant) -> bool {
        call_ensures(nanos_elapsed, (self.started,), time.nanos)
    }

    /// Starts a clock.
    pub fn start() -> (clock: Self)
        ensures
            clock.is_started(),
    {
        Clock { started: call(machine_now) }
    }

    /// The present time.
    pub fn now(&self) -> (time: Instant)
        ensures
            self.showed(time),
    {
        Instant { nanos: call_on(nanos_elapsed, self.started) }
    }
}

/// A clock shows what the machine's clock tells to have passed since the clock was started, and
/// it was started at what that clock told then.
proof fn clocks_show_what_has_passed(clock: Clock, time: Instant)
    ensures
        clock.showed(time) <==> call_ensures(nanos_elapsed, (clock.started,), time.nanos),
        clock.is_started() <==> call_ensures(machine_now, (), clock.started),
{
}

} // verus!
