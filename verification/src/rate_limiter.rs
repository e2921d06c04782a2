//! Adaptive request pacing for remote services.
//!
//! One limiter is kept per remote service. All times are in milliseconds on
//! a monotonic clock that the caller supplies: the limiter decides how long
//! to wait, the caller does the waiting.

use vstd::prelude::*;

verus! {

/// Factor between the base interval and the default ceiling.
pub const DEFAULT_MAX_FACTOR: u64 = 16;

/// Consecutive successes after which the default limiter halves its interval.
pub const DEFAULT_SUCCESSES_TO_REDUCE: u32 = 10;

/// Keeps a minimum interval between requests and adapts it to failures.
pub struct RateLimiter {
    /// Label of the service this limiter paces.
    pub name: String,
    /// Clock reading at which the last request was released, if any.
    pub last_request: Option<u64>,
    /// Interval currently enforced between two requests.
    pub current_interval: u64,
    /// Interval enforced while the service behaves.
    pub base_interval: u64,
    /// Ceiling that repeated failures cannot exceed.
    pub max_interval: u64,
    /// Successes counted since the last change of the interval.
    pub success_count: u32,
    /// Successes needed before the interval is halved; 0 disables halving.
    pub successes_to_reduce: u32,
}

/// Time still to wait at `now` so that `interval` has passed since `last`.
pub open spec fn remaining_wait(last: Option<u64>, interval: u64, now: u64) -> int {
    match last {
        Some(t) => {
            let elapsed: int = if now >= t { now - t } else { 0 };
            if elapsed < interval { interval - elapsed } else { 0 }
        },
        None => 0,
    }
}

/// The interval after one failure: doubled, but never above `max`.
pub open spec fn backed_off(current: u64, max: u64) -> u64 {
    if 2 * current <= max { (2 * current) as u64 } else { max }
}

/// The interval after a reduction: halved, but never below `base`.
pub open spec fn relaxed(current: u64, base: u64) -> u64 {
    if current / 2 >= base { current / 2 } else { base }
}

/// `a + b`, or the largest value where the sum does not fit.
pub open spec fn clamped_sum(a: u64, b: u64) -> u64 {
    if a + b <= u64::MAX { (a + b) as u64 } else { u64::MAX }
}

impl RateLimiter {
    /// The enforced interval lies between the base interval and the ceiling.
    pub open spec fn within_bounds(&self) -> bool {
        self.base_interval <= self.current_interval <= self.max_interval
    }

    /// Whether the next success reaches the count at which the interval is
    /// halved.
    pub open spec fn reduces_on_success(&self) -> bool {
        &&& self.successes_to_reduce != 0
        &&& self.success_count + 1 >= self.successes_to_reduce
        &&& self.current_interval > self.base_interval
    }

    /// Creates a limiter that starts at `base_interval`, never exceeds
    /// `max_interval`, and halves its interval after `successes_to_reduce`
    /// consecutive successes (never, if that is 0).
    pub fn new(name: &str, base_interval: u64, max_interval: u64, successes_to_reduce: u32) -> (r:
        Self)
        ensures
            r.name@ == name@,
            r.last_request is None,
            r.current_interval == base_interval,
            r.base_interval == base_interval,
            r.max_interval == max_interval,
            r.success_count == 0,
            r.successes_to_reduce == successes_to_reduce,
            r.within_bounds() <==> base_interval <= max_interval,
    {
        RateLimiter {
            name: name.to_owned(),
            last_request: None,
            current_interval: base_interval,
            base_interval,
            max_interval,
            success_count: 0,
            successes_to_reduce,
        }
    }

    /// A limiter with a base interval of `secs` seconds, the default ceiling
    /// of sixteen times the base and the default reduction after ten
    /// successes.
    pub fn from_secs(name: &str, secs: u64) -> (r: Self)
        requires
            secs * 1000 * DEFAULT_MAX_FACTOR <= u64::MAX,
        ensures
            r.name@ == name@,
            r.last_request is None,
            r.current_interval == secs * 1000,
            r.base_interval == secs * 1000,
            r.max_interval == secs * 1000 * DEFAULT_MAX_FACTOR,
            r.success_count == 0,
            r.successes_to_reduce == DEFAULT_SUCCESSES_TO_REDUCE,
            r.within_bounds(),
    {
        let base: u64 = secs * 1000;
        Self::new(name, base, base * DEFAULT_MAX_FACTOR, DEFAULT_SUCCESSES_TO_REDUCE)
    }

    /// A limiter with a base interval of `millis` milliseconds, the default
    /// ceiling of sixteen times the base and the default reduction after ten
    /// successes.
    pub fn from_millis(name: &str, millis: u64) -> (r: Self)
        requires
            millis * DEFAULT_MAX_FACTOR <= u64::MAX,
        ensures
            r.name@ == name@,
            r.last_request is None,
            r.current_interval == millis,
            r.base_interval == millis,
            r.max_interval == millis * DEFAULT_MAX_FACTOR,
            r.success_count == 0,
            r.successes_to_reduce == DEFAULT_SUCCESSES_TO_REDUCE,
            r.within_bounds(),
    {
        Self::new(name, millis, millis * DEFAULT_MAX_FACTOR, DEFAULT_SUCCESSES_TO_REDUCE)
    }

    /// Called before a request at clock reading `now`. Returns how long the
    /// caller has to sleep first, and records the moment at which the request
    /// then leaves as the last request.
    pub fn wait_if_needed(&mut self, now: u64) -> (wait: u64)
        ensures
            wait == remaining_wait(old(self).last_request, old(self).current_interval, now),
            final(self).last_request == Some(clamped_sum(now, wait)),
            final(self).name == old(self).name,
            final(self).current_interval == old(self).current_interval,
            final(self).base_interval == old(self).base_interval,
            final(self).max_interval == old(self).max_interval,
            final(self).success_count == old(self).success_count,
            final(self).successes_to_reduce == old(self).successes_to_reduce,
    {
        let wait: u64 = match self.last_request {
            Some(t) => {
                let elapsed: u64 = if now >= t { now - t } else { 0 };
                if elapsed < self.current_interval {
                    self.current_interval - elapsed
                } else {
                    0
                }
            },
            None => 0,
        };
        let released: u64 = if wait <= u64::MAX - now { now + wait } else { u64::MAX };
        self.last_request = Some(released);
        wait
    }

    /// Records a successful request. Once `successes_to_reduce` successes
    /// have been counted while the interval is above the base, the interval
    /// is halved, not below the base, and the count starts again.
    pub fn report_success(&mut self)
        ensures
            final(self).name == old(self).name,
            final(self).last_request == old(self).last_request,
            final(self).base_interval == old(self).base_interval,
            final(self).max_interval == old(self).max_interval,
            final(self).successes_to_reduce == old(self).successes_to_reduce,
            old(self).reduces_on_success() ==> {
                &&& final(self).current_interval == relaxed(
                    old(self).current_interval,
                    old(self).base_interval,
                )
                &&& final(self).success_count == 0
            },
            !old(self).reduces_on_success() ==> {
                &&& final(self).current_interval == old(self).current_interval
                &&& final(self).success_count == if old(self).successes_to_reduce == 0 {
                    old(self).success_count
                } else if old(self).success_count == u32::MAX {
                    u32::MAX
                } else {
                    (old(self).success_count + 1) as u32
                }
            },
            old(self).within_bounds() ==> final(self).within_bounds(),
    {
        if self.successes_to_reduce == 0 {
            return ;
        }
        if self.success_count < u32::MAX {
            self.success_count = self.success_count + 1;
        }
        if self.success_count >= self.successes_to_reduce && self.current_interval
            > self.base_interval {
            let halved: u64 = self.current_interval / 2;
            if halved >= self.base_interval {
                self.current_interval = halved;
            } else {
                self.current_interval = self.base_interval;
            }
            self.success_count = 0;
        }
    }

    /// Records a failed request: the interval doubles, not above the ceiling,
    /// and the success count starts again.
    pub fn report_failure(&mut self)
        ensures
            final(self).current_interval == backed_off(
                old(self).current_interval,
                old(self).max_interval,
            ),
            final(self).success_count == 0,
            final(self).name == old(self).name,
            final(self).last_request == old(self).last_request,
            final(self).base_interval == old(self).base_interval,
            final(self).max_interval == old(self).max_interval,
            final(self).successes_to_reduce == old(self).successes_to_reduce,
            old(self).within_bounds() ==> final(self).within_bounds(),
    {
        if self.current_interval <= self.max_interval / 2 {
            self.current_interval = self.current_interval * 2;
        } else {
            self.current_interval = self.max_interval;
        }
        self.success_count = 0;
    }
}

} // verus!
