//! Per-connection token bucket: `max_tokens` tokens, refilled to full once at
//! least `refill_interval_ms` has passed since the last refill. Times are
//! milliseconds on a clock that the caller reads.

use vstd::prelude::*;

verus! {

/// Messages a connection may send per window.
pub const RATE_LIMIT_MESSAGES: usize = 10;

/// Length of the rate window, in milliseconds.
pub const RATE_LIMIT_WINDOW_MS: u64 = 1000;

/// A token bucket. Its times are milliseconds since `origin`, a reading of
/// the monotonic clock taken when the bucket was made.
pub struct RateLimiter {
    pub tokens: usize,
    pub max_tokens: usize,
    pub last_refill_ms: u64,
    pub refill_interval_ms: u64,
    pub origin: std::time::Instant,
}

/// The model of a bucket: tokens, capacity, last refill, window.
pub type RateView = (usize, usize, u64, u64);

impl View for RateLimiter {
    type V = RateView;

    open spec fn view(&self) -> RateView {
        (self.tokens, self.max_tokens, self.last_refill_ms, self.refill_interval_ms)
    }
}

/// Time from `from` to `to`, zero when the clock went backwards.
pub open spec fn elapsed(from: u64, to: u64) -> int {
    if to >= from {
        to - from
    } else {
        0
    }
}

/// The bucket after a possible refill at time `now`.
pub open spec fn refill_spec(s: RateView, now: u64) -> RateView {
    if elapsed(s.2, now) >= s.3 {
        (s.1, s.1, now, s.3)
    } else {
        s
    }
}

/// One call at time `now`: refill if due, then take a token if there is one.
pub open spec fn consume_spec(s: RateView, now: u64) -> (RateView, bool) {
    let t = refill_spec(s, now);
    if t.0 > 0 {
        (((t.0 - 1) as usize, t.1, t.2, t.3), true)
    } else {
        (t, false)
    }
}

/// How many of the calls at `times`, made in order, are allowed.
pub open spec fn allowed_count(s: RateView, times: Seq<u64>) -> nat
    decreases times.len(),
{
    if times.len() == 0 {
        0
    } else {
        let (next, ok) = consume_spec(s, times[0]);
        (if ok {
            1nat
        } else {
            0nat
        }) + allowed_count(next, times.drop_first())
    }
}

#[verifier::external_type_specification]
#[verifier::external_body]
pub struct ExInstant(std::time::Instant);

/// Relies on std::time::Instant::now: a reading of the monotonic clock;
/// nothing is promised of its value.
#[verifier::external_body]
fn clock_start() -> (r: std::time::Instant) {
    std::time::Instant::now()
}

/// Relies on std::time::Instant::elapsed: the time since `origin` in
/// milliseconds; nothing is promised of its value.
#[verifier::external_body]
fn millis_since(origin: &std::time::Instant) -> (r: u64) {
    origin.elapsed().as_millis() as u64
}

impl RateLimiter {
    pub open spec fn wf(&self) -> bool {
        self.tokens <= self.max_tokens
    }

    /// A full bucket whose window starts at `now_ms`.
    pub fn new_at(max_tokens: usize, refill_interval_ms: u64, now_ms: u64) -> (r: Self)
        ensures
            r.wf(),
            r@ == (max_tokens, max_tokens, now_ms, refill_interval_ms),
    {
        RateLimiter { tokens: max_tokens, max_tokens, last_refill_ms: now_ms, refill_interval_ms, origin: clock_start() }
    }

    /// A full bucket whose window starts now, at time zero of its clock.
    pub fn new(max_tokens: usize, refill_interval_ms: u64) -> (r: Self)
        ensures
            r.wf(),
            r@ == (max_tokens, max_tokens, 0u64, refill_interval_ms),
    {
        RateLimiter::new_at(max_tokens, refill_interval_ms, 0)
    }

    fn refill(&mut self, now_ms: u64)
        requires
            old(self).wf(),
        ensures
            final(self).wf(),
            final(self)@ == refill_spec(old(self)@, now_ms),
    {
        let passed: u64 = if now_ms >= self.last_refill_ms {
            now_ms - self.last_refill_ms
        } else {
            0
        };
        if passed >= self.refill_interval_ms {
            self.tokens = self.max_tokens;
            self.last_refill_ms = now_ms;
        }
    }

    /// Takes a token for a message arriving at `now_ms`, refilling first if
    /// the window has passed; answers whether the message is allowed.
    pub fn check_and_consume_at(&mut self, now_ms: u64) -> (r: bool)
        requires
            old(self).wf(),
        ensures
            final(self).wf(),
            (final(self)@, r) == consume_spec(old(self)@, now_ms),
    {
        self.refill(now_ms);
        if self.tokens > 0 {
            self.tokens = self.tokens - 1;
            true
        } else {
            false
        }
    }

    /// Takes a token for a message arriving now, as the bucket's own clock
    /// tells.
    pub fn check_and_consume(&mut self) -> (r: bool)
        requires
            old(self).wf(),
        ensures
            final(self).wf(),
            exists|now: u64| (final(self)@, r) == consume_spec(old(self)@, now),
    {
        let now = millis_since(&self.origin);
        self.check_and_consume_at(now)
    }
}

/// Within one window, counted from the bucket's last refill, no more calls are
/// allowed than the bucket holds tokens, and so never more than its capacity.
/// (A stretch of length `W` that straddles a refill may see up to twice the
/// capacity: the law is stated for windows that start at a refill.)
pub proof fn lemma_window_bound(s: RateView, times: Seq<u64>)
    requires
        s.0 <= s.1,
        forall|i: int| 0 <= i < times.len() ==> s.2 <= #[trigger] times[i] && times[i] - s.2 < s.3,
    ensures
        allowed_count(s, times) <= s.0,
        allowed_count(s, times) <= s.1,
    decreases times.len(),
{
    if times.len() > 0 {
        let (next, ok) = consume_spec(s, times[0]);
        assert(s.2 <= times[0] && times[0] - s.2 < s.3);
        assert(refill_spec(s, times[0]) == s);
        let rest = times.drop_first();
        assert forall|i: int| 0 <= i < rest.len() implies next.2 <= #[trigger] rest[i] && rest[i]
            - next.2 < next.3 by {
            assert(rest[i] == times[i + 1]);
        }
        lemma_window_bound(next, rest);
    }
}

/// Once the tokens of a window are spent, every further call within that
/// window is refused and leaves the bucket as it was.
pub proof fn lemma_exhausted_refuses(s: RateView, now: u64)
    requires
        s.0 == 0,
        s.2 <= now,
        now - s.2 < s.3,
    ensures
        consume_spec(s, now) == (s, false),
{
}

/// A call made when a full window has passed since the last refill finds a
/// full bucket again.
pub proof fn lemma_refill_after_window(s: RateView, now: u64)
    requires
        s.1 > 0,
        elapsed(s.2, now) >= s.3,
    ensures
        consume_spec(s, now) == (((s.1 - 1) as usize, s.1, now, s.3), true),
{
}

} // verus!
