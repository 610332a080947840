//! Host-clocked animation primitives without visual defaults.

use std::time::{Duration, Instant};

use vstd::prelude::*;

use crate::tree::UiError;

verus! {

#[verifier::external_type_specification]
#[verifier::external_body]
pub struct ExInstant(Instant);

/// What `Duration::as_nanos` returns for a duration: its length in nanoseconds.
pub uninterp spec fn duration_nanos(d: Duration) -> nat;

/// The length of the longest `Duration`, in nanoseconds.
pub open spec fn max_duration_nanos() -> nat {
    18446744073709551615nat * 1000000000nat + 999999999nat
}

/// `Duration::as_nanos`: the total number of nanoseconds of the duration.
#[verifier::external_body]
pub(crate) fn nanos(d: Duration) -> (r: u128)
    ensures
        r == duration_nanos(d),
        r <= max_duration_nanos(),
{
    d.as_nanos()
}

/// `Duration::from_millis`: a duration of `millis` milliseconds.
#[verifier::external_body]
pub(crate) fn from_millis(millis: u64) -> (r: Duration)
    ensures
        duration_nanos(r) == millis * 1000000,
{
    Duration::from_millis(millis)
}

/// `Duration::saturating_sub`: the difference, or zero where it would be negative.
#[verifier::external_body]
pub(crate) fn saturating_sub(a: Duration, b: Duration) -> (r: Duration)
    ensures
        duration_nanos(r) == if duration_nanos(a) >= duration_nanos(b) {
            (duration_nanos(a) - duration_nanos(b)) as nat
        } else {
            0
        },
{
    a.saturating_sub(b)
}

/// `Duration::saturating_add`: the sum, or the longest duration where the
/// sum would not fit.
#[verifier::external_body]
pub(crate) fn saturating_add(a: Duration, b: Duration) -> (r: Duration)
    ensures
        duration_nanos(r) == if duration_nanos(a) + duration_nanos(b) <= max_duration_nanos() {
            duration_nanos(a) + duration_nanos(b)
        } else {
            max_duration_nanos()
        },
{
    a.saturating_add(b)
}

/// `Duration::ZERO`.
#[verifier::external_body]
pub(crate) fn zero_duration() -> (r: Duration)
    ensures
        duration_nanos(r) == 0,
{
    Duration::ZERO
}

/// `Instant::now`: the current moment of the monotonic clock.
#[verifier::external_body]
fn instant_now() -> (r: Instant) {
    Instant::now()
}

/// `Instant::elapsed`: how long ago `since` was; nothing is claimed of it.
#[verifier::external_body]
fn elapsed_since(since: &Instant) -> (r: Duration) {
    since.elapsed()
}

/// Monotonic time source supplied by a UI host.
pub trait Clock {
    fn now(&self) -> Duration;
}

/// Production clock measured from its construction time.
#[derive(Debug)]
pub struct SystemClock {
    started: Instant,
}

impl SystemClock {
    pub fn new() -> (r: Self) {
        SystemClock { started: instant_now() }
    }
}

impl Clock for SystemClock {
    fn now(&self) -> Duration {
        elapsed_since(&self.started)
    }
}

/// Deterministic clock advanced explicitly by tests or a simulated host.
/// There is one clock and readers borrow it, so every reader sees each
/// `set` and `advance` at once.
#[derive(Debug)]
pub struct ManualClock {
    now: Duration,
}

impl ManualClock {
    pub closed spec fn now_spec(&self) -> Duration {
        self.now
    }

    /// A clock standing at zero.
    pub fn new() -> (r: Self)
        ensures
            duration_nanos(r.now_spec()) == 0,
    {
        ManualClock { now: zero_duration() }
    }

    pub fn set(&mut self, now: Duration)
        ensures
            final(self).now_spec() == now,
    {
        self.now = now;
    }

    /// Moves the clock on by `amount`, stopping at the longest duration.
    pub fn advance(&mut self, amount: Duration)
        ensures
            duration_nanos(final(self).now_spec()) == if duration_nanos(old(self).now_spec())
                + duration_nanos(amount) <= max_duration_nanos() {
                duration_nanos(old(self).now_spec()) + duration_nanos(amount)
            } else {
                max_duration_nanos()
            },
    {
        self.now = saturating_add(self.now, amount);
    }

    pub fn current(&self) -> (r: Duration)
        ensures
            r == self.now_spec(),
    {
        self.now
    }
}

impl Default for ManualClock {
    /// A clock standing at zero.
    fn default() -> (r: Self)
        ensures
            duration_nanos(r.now_spec()) == 0,
    {
        ManualClock::new()
    }
}

impl Clock for ManualClock {
    fn now(&self) -> (r: Duration)
        ensures
            r == self.now_spec(),
    {
        self.now
    }
}

/// A normalized timeline. It deliberately contains no default easing,
/// duration or visual policy; consumers transform its progress themselves.
#[derive(Debug, Clone, Copy, PartialEq, Eq)]
pub struct Timeline {
    started: Duration,
    duration: Duration,
}

/// How far past `started` the moment `now` lies, zero before it.
pub open spec fn elapsed_nanos(started: Duration, now: Duration) -> nat {
    if duration_nanos(now) >= duration_nanos(started) {
        (duration_nanos(now) - duration_nanos(started)) as nat
    } else {
        0
    }
}

impl Timeline {
    pub closed spec fn started_spec(self) -> Duration {
        self.started
    }

    pub closed spec fn duration_spec(self) -> Duration {
        self.duration
    }

    /// A timeline of positive length starting at `started`.
    pub fn new(started: Duration, duration: Duration) -> (r: Result<Self, UiError>)
        ensures
            duration_nanos(duration) == 0 <==> r matches Err(UiError::InvalidAnimationDuration),
            r matches Ok(t) ==> t.started_spec() == started && t.duration_spec() == duration,
            r is Ok || r matches Err(UiError::InvalidAnimationDuration),
    {
        if nanos(duration) == 0 {
            return Err(UiError::InvalidAnimationDuration);
        }
        Ok(Timeline { started, duration })
    }

    pub fn started(self) -> (r: Duration)
        ensures
            r == self.started_spec(),
    {
        self.started
    }

    pub fn duration(self) -> (r: Duration)
        ensures
            r == self.duration_spec(),
    {
        self.duration
    }

    /// Whether the whole duration has passed at `now`.
    pub fn is_finished(self, now: Duration) -> (r: bool)
        ensures
            r == (elapsed_nanos(self.started_spec(), now) >= duration_nanos(self.duration_spec())),
    {
        nanos(saturating_sub(now, self.started)) >= nanos(self.duration)
    }
}

} // verus!
