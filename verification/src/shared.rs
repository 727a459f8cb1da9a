//! Runtime internals shared between threads: the timeout of a poll.

use std::time::{Duration, Instant};

use vstd::prelude::*;

use crate::time::{duration_as_nanos, duration_since, nanos_in, time_between};

verus! {

/// The timeout to poll with, given the `current` timeout and the timers' next
/// deadline, if any, at `now`.
pub open spec fn timeout_for(next_deadline: Option<Instant>, now: Instant, current: Option<Duration>) -> Option<
    Duration,
> {
    match next_deadline {
        None => current,
        Some(deadline) => {
            let timeout = time_between(deadline, now);
            match current {
                Some(current) => if nanos_in(current) < nanos_in(timeout) {
                    Some(current)
                } else {
                    Some(timeout)
                },
                None => Some(timeout),
            }
        },
    }
}

/// Determine the timeout to use in polling based on the current time (`now`),
/// the `current` timeout and the next deadline of the timers.
///
/// If there are no timers this returns `current`. If `current` is smaller than
/// the time until the next deadline this also returns `current`. Otherwise
/// this returns the time until the next deadline, zero if it has already
/// passed (no blocking).
pub fn next_timeout(next_deadline: Option<Instant>, now: Instant, current: Option<Duration>) -> (timeout: Option<
    Duration,
>)
    ensures
        timeout == timeout_for(next_deadline, now, current),
        next_deadline is Some ==> timeout is Some && nanos_in(timeout->0) <= nanos_in(
            time_between(next_deadline->0, now),
        ),
        next_deadline is None ==> timeout == current,
{
    match next_deadline {
        Some(deadline) => {
            let timeout = duration_since(deadline, now);
            match current {
                Some(current) => {
                    if duration_as_nanos(current) < duration_as_nanos(timeout) {
                        Some(current)
                    } else {
                        Some(timeout)
                    }
                },
                None => Some(timeout),
            }
        },
        None => current,
    }
}

/// A poll never waits longer than it was going to: the timeout is at most the
/// current one, where there is one.
pub proof fn lemma_timeout_at_most_current(next_deadline: Option<Instant>, now: Instant, current: Duration)
    ensures
        timeout_for(next_deadline, now, Some(current)) is Some,
        nanos_in(timeout_for(next_deadline, now, Some(current))->0) <= nanos_in(current),
{
}

/// A timer never makes a poll wait past its deadline: whenever there is a
/// next deadline the poll gets a timeout, at most the time from `now` until
/// that deadline (zero once it has passed, so an expired timer does not block
/// the poll). Without timers the current timeout stays.
pub proof fn lemma_timeout_within_deadline(
    next_deadline: Option<Instant>,
    now: Instant,
    current: Option<Duration>,
    timeout: Option<Duration>,
)
    requires
        call_ensures(next_timeout, (next_deadline, now, current), timeout),
    ensures
        next_deadline is Some ==> timeout is Some && nanos_in(timeout->0) <= nanos_in(
            time_between(next_deadline->0, now),
        ),
        next_deadline is None ==> timeout == current,
        current is Some && timeout is Some ==> nanos_in(timeout->0) <= nanos_in(current->0),
{
}

} // verus!
