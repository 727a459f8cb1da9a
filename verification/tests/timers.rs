//! Tests of timer tokens and of the timers' time until the next deadline.

use std::task::Waker;
use std::time::{Duration, Instant};

use heph_rt::rt::{TimerToken, Timers};
use heph_rt::setup::timers::TimerToken as SetupTimerToken;

#[test]
fn timer_token_data() {
    let token = TimerToken::new(123);
    assert_eq!(token.data(), 123);
    // The token can be copied.
    assert_eq!(token.data(), 123);
    assert_eq!(SetupTimerToken::new(7).data(), 7);
}

struct OneDeadline(Option<Instant>);

impl Timers for OneDeadline {
    fn next_deadline(&mut self) -> Option<Instant> {
        self.0
    }

    fn expire_timers(&mut self, _: Instant) -> usize {
        0
    }

    fn add(&mut self, deadline: Instant, _: Waker) -> TimerToken {
        self.0 = Some(deadline);
        TimerToken::new(0)
    }

    fn remove(&mut self, _: Instant, _: TimerToken) {
        self.0 = None;
    }

    fn len(&self) -> usize {
        usize::from(self.0.is_some())
    }
}

#[test]
fn until_next_deadline() {
    let mut timers = OneDeadline(None);
    assert_eq!(timers.until_next_deadline(), None);
    // A passed deadline gives zero.
    timers.0 = Some(Instant::now() - Duration::from_secs(1));
    assert_eq!(timers.until_next_deadline(), Some(Duration::ZERO));
    // A future deadline gives at most the time until it.
    timers.0 = Some(Instant::now() + Duration::from_secs(100));
    let left = timers.until_next_deadline().unwrap();
    assert!(left <= Duration::from_secs(100));
    assert!(left > Duration::from_secs(90));
}
