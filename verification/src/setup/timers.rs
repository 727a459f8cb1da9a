//! Timers implementation: the interface of the timers used by thread-local
//! (`Timers`) and thread-safe (`SharedTimers`) processes.

use std::task::Waker;
use std::time::{Duration, Instant};

use vstd::prelude::*;

use crate::time::{instant_now, time_until};

verus! {

/// Timers implementation.
pub trait Timers {
    /// Returns the next deadline, if any.
    fn next_deadline(&mut self) -> Option<Instant>;

    /// Same as [`Timers::next_deadline`], but returns it as a [`Duration`]
    /// instead: the time left until the deadline, zero if it has passed (see
    /// [`time_until`]).
    fn until_next_deadline(&mut self) -> (left: Option<Duration>) {
        let deadline = self.next_deadline();
        time_until(deadline, instant_now())
    }

    /// Expire all timers that have elapsed based on `now`. Returns the amount
    /// of expired timers. `now` may never go backwards between calls.
    fn expire_timers(&mut self, now: Instant) -> usize;

    /// Add a new deadline. The returned token can be used to cancel a timer,
    /// see [`Timers::remove`].
    fn add(&mut self, deadline: Instant, waker: Waker) -> TimerToken;

    /// Remove a previously added deadline. The `token` should be one returned
    /// by [`Timers::add`] along with the same `deadline`.
    fn remove(&mut self, deadline: Instant, token: TimerToken);

    /// Returns the current total number of timers.
    fn len(&self) -> usize;
}

/// Shared timers implementation.
///
/// An implementation of [`Timers`] that is shared between worker threads, used
/// by timers that are created by thread-safe processes. The methods are the
/// same as on [`Timers`], but take a reference to self, rather than a mutable
/// reference.
pub trait SharedTimers {
    /// Returns the next deadline, if any.
    fn next_deadline(&self) -> Option<Instant>;

    /// Same as [`SharedTimers::next_deadline`], but returns it as a
    /// [`Duration`] instead: the time left until the deadline, zero if it has
    /// passed (see [`time_until`]).
    fn until_next_deadline(&self) -> (left: Option<Duration>) {
        let deadline = self.next_deadline();
        time_until(deadline, instant_now())
    }

    /// Expire all timers that have elapsed based on `now`. Returns the amount
    /// of expired timers. `now` may never go backwards between calls.
    fn expire_timers(&self, now: Instant) -> usize;

    /// Add a new deadline. The returned token can be used to cancel a timer,
    /// see [`SharedTimers::remove`].
    fn add(&self, deadline: Instant, waker: Waker) -> TimerToken;

    /// Remove a previously added deadline. The `token` should be one returned
    /// by [`SharedTimers::add`] along with the same `deadline`.
    fn remove(&self, deadline: Instant, token: TimerToken);

    /// Returns the current total number of timers.
    fn len(&self) -> usize;
}

/// Token used to expire a timer.
#[derive(Debug)]
pub struct TimerToken(usize);

impl TimerToken {
    /// The data the token was made with.
    pub closed spec fn spec_data(self) -> usize {
        self.0
    }

    /// Create a new timer token.
    pub fn new(data: usize) -> (token: TimerToken)
        ensures
            token.spec_data() == data,
    {
        TimerToken(data)
    }

    /// Returns the data passed to [`TimerToken::new`].
    pub fn data(self) -> (data: usize)
        ensures
            data == self.spec_data(),
    {
        self.0
    }
}

} // verus!
