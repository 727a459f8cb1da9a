//! Time as the runtime sees it.
//!
//! Durations the scheduler computes with are counted in nanoseconds; the
//! standard library's `Duration` and `Instant` are carried through and
//! converted at the few places that need them.

use std::task::Poll;
use std::time::{Duration, Instant};

use vstd::prelude::*;

verus! {

#[verifier::external_type_specification]
#[verifier::external_body]
pub struct ExInstant(Instant);

#[verifier::external_type_specification]
#[verifier::external_body]
pub struct ExWaker(std::task::Waker);

#[verifier::external_type_specification]
#[verifier::external_body]
#[verifier::reject_recursive_types(T)]
pub struct ExPoll<T>(Poll<T>);

/// Nanoseconds in a second.
pub const NANOS_PER_SEC: u128 = 1_000_000_000;

/// The number of nanoseconds in the longest `Duration`, `u64::MAX` seconds
/// and 999,999,999 nanoseconds.
pub const MAX_DURATION_NANOS: u128 = 18_446_744_073_709_551_615_999_999_999;

/// The `Duration` of `secs` seconds and `nanos` nanoseconds, as made by
/// `Duration::new`.
pub uninterp spec fn duration_of(secs: u64, nanos: u32) -> Duration;

/// `Duration::new`: the duration of `secs` seconds and `nanos` nanoseconds.
/// With `nanos` below a second it never carries into the seconds, so it does
/// not panic.
#[verifier::external_body]
pub(crate) fn duration_new(secs: u64, nanos: u32) -> (duration: Duration)
    requires
        nanos < 1_000_000_000,
    ensures
        duration == duration_of(secs, nanos),
{
    Duration::new(secs, nanos)
}

/// The total number of nanoseconds in `duration`, as `Duration::as_nanos`
/// gives it.
pub uninterp spec fn nanos_in(duration: Duration) -> u128;

/// `Duration::as_nanos`: the total number of nanoseconds in `duration`. A
/// duration is its whole seconds and the nanoseconds left over, so it is the one
/// that `Duration::new` makes of the quotient and remainder of that total by a
/// billion; for a duration made by `Duration::new` the total is its seconds
/// times a billion plus its nanoseconds.
#[verifier::external_body]
pub(crate) fn duration_as_nanos(duration: Duration) -> (nanos: u128)
    ensures
        nanos == nanos_in(duration),
        nanos <= MAX_DURATION_NANOS,
        duration == duration_of((nanos / 1_000_000_000) as u64, (nanos % 1_000_000_000) as u32),
        forall|secs: u64, sub: u32|
            sub < 1_000_000_000 && duration == #[trigger] duration_of(secs, sub) ==> nanos == secs * 1_000_000_000
                + sub,
{
    duration.as_nanos()
}

/// The `Duration` of `nanos` nanoseconds.
pub fn duration_from_nanos(nanos: u128) -> (duration: Duration)
    requires
        nanos <= MAX_DURATION_NANOS,
    ensures
        duration == duration_of((nanos / 1_000_000_000) as u64, (nanos % 1_000_000_000) as u32),
{
    let secs = nanos / NANOS_PER_SEC;
    let sub = nanos % NANOS_PER_SEC;
    duration_new(secs as u64, sub as u32)
}

/// `Instant::now`: the current time. Nothing is stated of it: it depends on
/// the clock.
#[verifier::external_body]
pub(crate) fn instant_now() -> Instant {
    Instant::now()
}

/// The current time: a reading of the clock. Of the instant that comes back
/// nothing is known but that the clock gave it, which contracts state with
/// `call_ensures(read_clock, (), instant)`.
pub fn read_clock() -> Instant {
    instant_now()
}

/// The time from `earlier` to `later`, zero where `earlier` is the later one,
/// as `Instant::saturating_duration_since` gives it.
pub uninterp spec fn time_between(later: Instant, earlier: Instant) -> Duration;

/// `Instant::saturating_duration_since`: the time from `earlier` to `later`,
/// zero if `earlier` is the later one.
#[verifier::external_body]
pub(crate) fn duration_since(later: Instant, earlier: Instant) -> (duration: Duration)
    ensures
        duration == time_between(later, earlier),
{
    later.saturating_duration_since(earlier)
}

/// The time left until `deadline`, if there is one, as seen at `now`: zero
/// where the deadline has passed.
pub fn time_until(deadline: Option<Instant>, now: Instant) -> (left: Option<Duration>)
    ensures
        left == match deadline {
            Some(deadline) => Some(time_between(deadline, now)),
            None => None,
        },
{
    match deadline {
        Some(deadline) => Some(duration_since(deadline, now)),
        None => None,
    }
}

} // verus!
