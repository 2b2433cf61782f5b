//! A circuit breaker for outgoing calls: after enough failures it opens,
//! and after a timeout it lets one attempt through.
use vstd::prelude::*;
use std::time::Duration;
use crate::clock::unix_now_seconds;

verus! {

/// The whole seconds of a duration: what `Duration::as_secs` gives, which
/// depends on the duration alone.
pub uninterp spec fn secs_of(d: Duration) -> u64;

/// The whole seconds of a duration (`Duration::as_secs`), named `secs_of`.
#[verifier::external_body]
fn whole_seconds(d: &Duration) -> (r: u64)
    ensures
        r == secs_of(*d),
{
    d.as_secs()
}

/// The state of the breaker: 0 closed, 1 open, 2 half-open.
pub struct BreakerState {
    pub state: u8,
    pub failure_threshold: usize,
    pub timeout_secs: u64,
    pub failure_count: usize,
    pub last_failure_time: u64,
}

pub struct CircuitBreaker {
    state: u8,
    failure_threshold: usize,
    timeout_secs: u64,
    failure_count: usize,
    last_failure_time: u64,
}

impl View for CircuitBreaker {
    type V = BreakerState;

    closed spec fn view(&self) -> BreakerState {
        BreakerState {
            state: self.state,
            failure_threshold: self.failure_threshold,
            timeout_secs: self.timeout_secs,
            failure_count: self.failure_count,
            last_failure_time: self.last_failure_time,
        }
    }
}

impl CircuitBreaker {
    /// A closed breaker that opens after `failure_threshold` failures and
    /// stays open for `timeout`.
    pub fn new(failure_threshold: usize, timeout: Duration) -> (r: Self)
        ensures
            r@.state == 0,
            r@.failure_threshold == failure_threshold,
            r@.timeout_secs == secs_of(timeout),
            r@.failure_count == 0,
            r@.last_failure_time == 0,
    {
        CircuitBreaker {
            state: 0,
            failure_threshold,
            timeout_secs: whole_seconds(&timeout),
            failure_count: 0,
            last_failure_time: 0,
        }
    }

    /// A success closes the breaker and forgets the failures.
    pub fn record_success(&mut self)
        ensures
            final(self)@ == (BreakerState { state: 0, failure_count: 0, ..old(self)@ }),
    {
        self.state = 0;
        self.failure_count = 0;
    }

    /// A failure at `now` (seconds): counted, and once the count reaches
    /// the threshold the breaker opens, remembering the time.
    pub fn record_failure_at(&mut self, now: u64)
        requires
            old(self)@.failure_count < usize::MAX,
        ensures
            final(self)@.failure_count == old(self)@.failure_count + 1,
            final(self)@.failure_threshold == old(self)@.failure_threshold,
            final(self)@.timeout_secs == old(self)@.timeout_secs,
            old(self)@.failure_count + 1 >= old(self)@.failure_threshold ==> final(self)@.state == 1
                && final(self)@.last_failure_time == now,
            old(self)@.failure_count + 1 < old(self)@.failure_threshold ==> final(self)@.state
                == old(self)@.state && final(self)@.last_failure_time == old(self)@.last_failure_time,
    {
        self.failure_count = self.failure_count + 1;
        if self.failure_count >= self.failure_threshold {
            self.state = 1;
            self.last_failure_time = now;
        }
    }

    /// A failure now; see `record_failure_at`.
    pub fn record_failure(&mut self)
        requires
            old(self)@.failure_count < usize::MAX,
        ensures
            final(self)@.failure_count == old(self)@.failure_count + 1,
            final(self)@.failure_threshold == old(self)@.failure_threshold,
            final(self)@.timeout_secs == old(self)@.timeout_secs,
            old(self)@.failure_count + 1 < old(self)@.failure_threshold ==> final(self)@.state
                == old(self)@.state && final(self)@.last_failure_time == old(self)@.last_failure_time,
            old(self)@.failure_count + 1 >= old(self)@.failure_threshold ==> final(self)@.state == 1,
    {
        let now = unix_now_seconds() as u64;
        self.record_failure_at(now);
    }

    /// Whether a call may go through at `now` (seconds): always when
    /// closed or half-open; when open, only once the timeout has passed,
    /// which turns the breaker half-open.
    pub fn is_allowed_at(&mut self, now: u64) -> (r: bool)
        requires
            old(self)@.state == 1 ==> old(self)@.last_failure_time + old(self)@.timeout_secs <= u64::MAX,
        ensures
            old(self)@.state != 1 ==> r && final(self)@ == old(self)@,
            old(self)@.state == 1 ==> {
                &&& r == (now > old(self)@.last_failure_time + old(self)@.timeout_secs)
                &&& final(self)@ == (if r {
                    BreakerState { state: 2, ..old(self)@ }
                } else {
                    old(self)@
                })
            },
    {
        if self.state == 0 {
            return true;
        }
        if self.state == 1 {
            if now > self.last_failure_time + self.timeout_secs {
                self.state = 2;
                return true;
            }
            return false;
        }
        true
    }

    /// Whether a call may go through now; see `is_allowed_at`.
    pub fn is_allowed(&mut self) -> (r: bool)
        requires
            old(self)@.state == 1 ==> old(self)@.last_failure_time + old(self)@.timeout_secs <= u64::MAX,
        ensures
            old(self)@.state != 1 ==> r && final(self)@ == old(self)@,
            old(self)@.state == 1 ==> final(self)@ == (if r {
                BreakerState { state: 2, ..old(self)@ }
            } else {
                old(self)@
            }),
    {
        let now = unix_now_seconds() as u64;
        self.is_allowed_at(now)
    }
}

} // verus!
