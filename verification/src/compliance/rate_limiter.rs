//! Token-bucket rate limiter synchronized with exchange API quotas to prevent
//! bans.

use vstd::prelude::*;
use crate::fixed::min;

verus! {

broadcast use vstd::array::group_array_axioms;

/// Number of buckets in the timing wheel.
pub const TIMING_WHEEL_BUCKETS: usize = 1024;

/// Refill rates are in units of 1/2^32 token per cycle.
pub const RATE_ONE: u64 = 0x1_0000_0000;

/// A single bucket in the timing wheel.
#[derive(Debug, Clone, Copy)]
pub struct RateLimitBucket {
    /// Available tokens.
    pub tokens: u64,
    /// Last refill timestamp.
    pub last_refill_ts: u64,
    /// Token capacity.
    pub capacity: u64,
    /// Refill rate (fixed-point).
    pub refill_rate: u64,
    /// Fills the cache line.
    pub padding: [u8; 32],
}

impl RateLimitBucket {
    /// Bucket without capacity.
    pub open spec fn spec_new() -> Self {
        RateLimitBucket {
            tokens: 0,
            last_refill_ts: 0,
            capacity: 0,
            refill_rate: 0,
            padding: vstd::array::spec_array_fill_for_copy_type::<u8, 32>(0u8),
        }
    }

    /// Bucket without capacity.
    pub fn new() -> (r: Self)
        ensures
            r == Self::spec_new(),
    {
        RateLimitBucket {
            tokens: 0,
            last_refill_ts: 0,
            capacity: 0,
            refill_rate: 0,
            padding: [0u8; 32],
        }
    }

    /// Cycles since the last refill; none if the clock went back.
    pub open spec fn elapsed(self, now: u64) -> int {
        if now >= self.last_refill_ts {
            now - self.last_refill_ts
        } else {
            0
        }
    }

    /// Tokens in the bucket once it has been refilled up to `now`.
    pub open spec fn refilled(self, now: u64) -> int {
        min(
            self.tokens + (self.elapsed(now) * self.refill_rate) / (RATE_ONE as int),
            self.capacity as int,
        )
    }

    /// The bucket after `tokens` were asked of it at time `now`.
    pub open spec fn after(self, tokens: u64, now: u64) -> Self {
        RateLimitBucket {
            tokens: (if self.refilled(now) >= tokens {
                self.refilled(now) - tokens
            } else {
                self.refilled(now)
            }) as u64,
            last_refill_ts: now,
            ..self
        }
    }
}

/// The rate limiter: a timing wheel of token buckets.
#[derive(Debug)]
pub struct RateLimiter {
    /// Timing wheel buckets.
    pub buckets: [RateLimitBucket; 1024],
    /// Current wheel position.
    pub wheel_position: u64,
    /// Total requests allowed.
    pub total_allowed: u64,
    /// Total requests rejected.
    pub total_rejected: u64,
    /// Flag indicating if the limiter is active.
    pub is_active: bool,
    /// Circuit breaker flag.
    pub circuit_open: bool,
}

impl RateLimiter {
    /// No bucket holds more than its capacity.
    pub open spec fn wf(&self) -> bool {
        forall|i: int|
            0 <= i < TIMING_WHEEL_BUCKETS ==> (#[trigger] self.buckets@[i]).tokens
                <= self.buckets@[i].capacity
    }

    /// Bucket that an index selects.
    pub open spec fn bucket(&self, bucket_idx: usize) -> RateLimitBucket {
        self.buckets@[bucket_idx as int % 1024]
    }

    /// Create a new rate limiter.
    pub fn new() -> (r: Self)
        ensures
            r.wf(),
            forall|i: int|
                0 <= i < TIMING_WHEEL_BUCKETS ==> r.buckets@[i] == RateLimitBucket::spec_new(),
            r.wheel_position == 0,
            r.total_allowed == 0,
            r.total_rejected == 0,
            r.is_active,
            !r.circuit_open,
    {
        RateLimiter {
            buckets: [RateLimitBucket::new();1024],
            wheel_position: 0,
            total_allowed: 0,
            total_rejected: 0,
            is_active: true,
            circuit_open: false,
        }
    }

    /// Initialize a bucket with specific parameters; it starts full. An index
    /// out of range changes nothing.
    pub fn init_bucket(&mut self, idx: usize, capacity: u64, refill_rate: u64)
        requires
            old(self).wf(),
        ensures
            final(self).wf(),
            idx >= TIMING_WHEEL_BUCKETS ==> *final(self) == *old(self),
            idx < TIMING_WHEEL_BUCKETS ==> final(self).buckets@ == old(self).buckets@.update(
                idx as int,
                RateLimitBucket {
                    capacity,
                    refill_rate,
                    tokens: capacity,
                    ..old(self).buckets@[idx as int]
                },
            ) && *final(self) == (RateLimiter { buckets: final(self).buckets, ..*old(self) }),
    {
        if idx >= TIMING_WHEEL_BUCKETS {
            return ;
        }
        let mut bucket = self.buckets[idx];
        bucket.capacity = capacity;
        bucket.refill_rate = refill_rate;
        bucket.tokens = capacity;
        self.buckets[idx] = bucket;
    }

    /// Try to consume tokens at time `now`, once the bucket has been refilled.
    /// An inactive limiter lets everything pass; an open circuit nothing.
    pub fn try_acquire(&mut self, bucket_idx: usize, tokens: u64, now: u64) -> (r: bool)
        requires
            old(self).wf(),
            old(self).is_active && !old(self).circuit_open ==> {
                let b = old(self).bucket(bucket_idx);
                &&& b.elapsed(now) * b.refill_rate <= u64::MAX
                &&& b.tokens + (b.elapsed(now) * b.refill_rate) / (RATE_ONE as int) <= u64::MAX
            },
        ensures
            final(self).wf(),
            r == (!old(self).is_active || (!old(self).circuit_open && old(self).bucket(
                bucket_idx,
            ).refilled(now) >= tokens)),
            !old(self).is_active ==> *final(self) == *old(self),
            old(self).is_active && old(self).circuit_open ==> *final(self) == (RateLimiter {
                total_rejected: old(self).total_rejected.wrapping_add(1),
                ..*old(self)
            }),
            old(self).is_active && !old(self).circuit_open ==> {
                &&& final(self).buckets@ == old(self).buckets@.update(
                    bucket_idx as int % 1024,
                    old(self).bucket(bucket_idx).after(tokens, now),
                )
                &&& *final(self) == (RateLimiter {
                    buckets: final(self).buckets,
                    wheel_position: old(self).wheel_position.wrapping_add(1),
                    total_allowed: if r {
                        old(self).total_allowed.wrapping_add(1)
                    } else {
                        old(self).total_allowed
                    },
                    total_rejected: if r {
                        old(self).total_rejected
                    } else {
                        old(self).total_rejected.wrapping_add(1)
                    },
                    ..*old(self)
                })
            },
    {
        if !self.is_active {
            return true;
        }
        if self.circuit_open {
            self.total_rejected = self.total_rejected.wrapping_add(1);
            return false;
        }
        let idx: usize = bucket_idx % TIMING_WHEEL_BUCKETS;
        let mut bucket = self.buckets[idx];
        let elapsed: u64 = now.saturating_sub(bucket.last_refill_ts);
        proof {
            assert(elapsed == bucket.elapsed(now));
        }
        let amount: u64 = (elapsed * bucket.refill_rate) / RATE_ONE;
        let sum: u64 = bucket.tokens + amount;
        let refilled: u64 = if sum < bucket.capacity {
            sum
        } else {
            bucket.capacity
        };
        let can_consume = refilled >= tokens;
        bucket.tokens = if can_consume {
            refilled - tokens
        } else {
            refilled
        };
        bucket.last_refill_ts = now;
        self.buckets[idx] = bucket;
        if can_consume {
            self.total_allowed = self.total_allowed.wrapping_add(1);
        } else {
            self.total_rejected = self.total_rejected.wrapping_add(1);
        }
        self.wheel_position = self.wheel_position.wrapping_add(1);
        can_consume
    }

    /// Get remaining tokens in a bucket.
    pub fn get_tokens(&self, bucket_idx: usize) -> (r: u64)
        ensures
            r == self.bucket(bucket_idx).tokens,
    {
        self.buckets[bucket_idx % TIMING_WHEEL_BUCKETS].tokens
    }

    /// Open the circuit breaker (emergency stop).
    pub fn open_circuit(&mut self)
        ensures
            *final(self) == (RateLimiter { circuit_open: true, ..*old(self) }),
    {
        self.circuit_open = true;
    }

    /// Close the circuit breaker.
    pub fn close_circuit(&mut self)
        ensures
            *final(self) == (RateLimiter { circuit_open: false, ..*old(self) }),
    {
        self.circuit_open = false;
    }

    /// Allowed and rejected requests, and whether the circuit is open.
    pub fn get_stats(&self) -> (r: (u64, u64, bool))
        ensures
            r == (self.total_allowed, self.total_rejected, self.circuit_open),
    {
        (self.total_allowed, self.total_rejected, self.circuit_open)
    }

    /// Fill all buckets and go back to the first wheel position.
    pub fn reset(&mut self)
        ensures
            final(self).wf(),
            forall|i: int|
                0 <= i < TIMING_WHEEL_BUCKETS ==> #[trigger] final(self).buckets@[i] == (
                RateLimitBucket {
                    tokens: old(self).buckets@[i].capacity,
                    ..old(self).buckets@[i]
                }),
            *final(self) == (RateLimiter {
                buckets: final(self).buckets,
                wheel_position: 0,
                ..*old(self)
            }),
    {
        let mut i: usize = 0;
        while i < TIMING_WHEEL_BUCKETS
            invariant
                i <= TIMING_WHEEL_BUCKETS,
                forall|k: int|
                    0 <= k < i ==> #[trigger] self.buckets@[k] == (RateLimitBucket {
                        tokens: old(self).buckets@[k].capacity,
                        ..old(self).buckets@[k]
                    }),
                forall|k: int|
                    i <= k < TIMING_WHEEL_BUCKETS ==> #[trigger] self.buckets@[k] == old(self).buckets@[k],
                *self == (RateLimiter { buckets: self.buckets, ..*old(self) }),
            decreases TIMING_WHEEL_BUCKETS - i,
        {
            let mut bucket = self.buckets[i];
            bucket.tokens = bucket.capacity;
            self.buckets[i] = bucket;
            i = i + 1;
        }
        self.wheel_position = 0;
    }

    /// Shut the rate limiter down.
    pub fn shutdown(&mut self)
        ensures
            *final(self) == (RateLimiter { is_active: false, ..*old(self) }),
    {
        self.is_active = false;
    }
}

impl Default for RateLimiter {
    fn default() -> (r: Self)
        ensures
            r.wf(),
            forall|i: int|
                0 <= i < TIMING_WHEEL_BUCKETS ==> r.buckets@[i] == RateLimitBucket::spec_new(),
            r.wheel_position == 0,
            r.total_allowed == 0,
            r.total_rejected == 0,
            r.is_active,
            !r.circuit_open,
    {
        Self::new()
    }
}

/// Bucket after a run of requests, each a number of tokens and a time.
pub open spec fn drain(b: RateLimitBucket, asks: Seq<(u64, u64)>) -> RateLimitBucket
    decreases asks.len(),
{
    if asks.len() == 0 {
        b
    } else {
        drain(b, asks.drop_last()).after(asks.last().0, asks.last().1)
    }
}

/// Tokens that a run of requests is granted.
pub open spec fn granted(b: RateLimitBucket, asks: Seq<(u64, u64)>) -> int
    decreases asks.len(),
{
    if asks.len() == 0 {
        0
    } else {
        let d = drain(b, asks.drop_last());
        let ask = asks.last();
        granted(b, asks.drop_last()) + (if d.refilled(ask.1) >= ask.0 {
            ask.0 as int
        } else {
            0
        })
    }
}

/// Without a refill rate, no run of requests is granted more tokens than the
/// bucket held, and what is left is what was not granted.
pub proof fn lemma_no_refill_bounds_grants(b: RateLimitBucket, asks: Seq<(u64, u64)>)
    requires
        b.refill_rate == 0,
        b.tokens <= b.capacity,
    ensures
        drain(b, asks).tokens == b.tokens - granted(b, asks),
        0 <= granted(b, asks) <= b.tokens,
        drain(b, asks).refill_rate == 0,
        drain(b, asks).capacity == b.capacity,
    decreases asks.len(),
{
    if asks.len() > 0 {
        lemma_no_refill_bounds_grants(b, asks.drop_last());
        let d = drain(b, asks.drop_last());
        let now = asks.last().1;
        assert(d.elapsed(now) * d.refill_rate == 0) by (nonlinear_arith)
            requires
                d.refill_rate == 0,
        ;
        assert(d.refilled(now) == d.tokens);
    }
}

/// A bucket never holds more than its capacity, whatever is asked of it.
pub proof fn lemma_capacity_kept(b: RateLimitBucket, asks: Seq<(u64, u64)>)
    requires
        b.tokens <= b.capacity,
    ensures
        drain(b, asks).tokens <= b.capacity,
        drain(b, asks).capacity == b.capacity,
    decreases asks.len(),
{
    if asks.len() > 0 {
        lemma_capacity_kept(b, asks.drop_last());
        let d = drain(b, asks.drop_last());
        let now = asks.last().1;
        let e = d.elapsed(now);
        let r = d.refill_rate as int;
        assert(0 <= e * r) by (nonlinear_arith)
            requires
                0 <= e,
                0 <= r,
        ;
        assert(0 <= d.refilled(now) <= d.capacity);
    }
}

/// A bucket gains its rate, in units of 1/2^32 token, for each cycle since the last
/// refill, whole tokens only, up to its capacity; nothing if the clock went back.
pub proof fn lemma_refill_by_time(b: RateLimitBucket, now: u64, gained: int)
    requires
        b.tokens <= b.capacity,
        now >= b.last_refill_ts,
        gained * 0x1_0000_0000 <= (now - b.last_refill_ts) * b.refill_rate < (gained + 1)
            * 0x1_0000_0000,
    ensures
        b.tokens + gained <= b.capacity ==> b.refilled(now) == b.tokens + gained,
        b.tokens + gained > b.capacity ==> b.refilled(now) == b.capacity,
{
    let x = (now - b.last_refill_ts) * b.refill_rate;
    assert(x / 0x1_0000_0000 == gained);
}

/// A clock that went back, or a rate of zero, gains nothing.
pub proof fn lemma_no_gain(b: RateLimitBucket, now: u64)
    requires
        b.tokens <= b.capacity,
        now <= b.last_refill_ts || b.refill_rate == 0,
    ensures
        b.refilled(now) == b.tokens,
{
    let e = b.elapsed(now);
    assert(e * b.refill_rate == 0) by (nonlinear_arith)
        requires
            e == 0 || b.refill_rate == 0,
    ;
}

/// A request that is granted takes its tokens out of the bucket; one that asks for more
/// than the bucket holds takes nothing.
pub proof fn lemma_request_takes_its_tokens(b: RateLimitBucket, tokens: u64, now: u64)
    requires
        b.tokens <= b.capacity,
    ensures
        0 <= b.refilled(now) <= b.capacity,
        b.refilled(now) >= tokens ==> b.after(tokens, now).tokens + tokens == b.refilled(now),
        b.refilled(now) < tokens ==> b.after(tokens, now).tokens == b.refilled(now),
        b.after(tokens, now).last_refill_ts == now,
        b.after(tokens, now).capacity == b.capacity,
        b.after(tokens, now).refill_rate == b.refill_rate,
{
    let e = b.elapsed(now);
    assert(e * b.refill_rate >= 0) by (nonlinear_arith)
        requires
            e >= 0,
            b.refill_rate >= 0,
    ;
}

/// Whatever is asked of a bucket while the clock goes forward, it is granted no more than
/// it held and gained in the time: tokens granted and left together never exceed the
/// tokens at first and the rate times the cycles that went by.
pub proof fn lemma_grants_bounded_by_time(b: RateLimitBucket, asks: Seq<(u64, u64)>)
    requires
        b.tokens <= b.capacity,
        forall|i: int| 0 <= i < asks.len() ==> b.last_refill_ts <= (#[trigger] asks[i]).1,
        forall|i: int, j: int|
            0 <= i < j < asks.len() ==> (#[trigger] asks[i]).1 <= (#[trigger] asks[j]).1,
    ensures
        ({
            let d = drain(b, asks);
            &&& (granted(b, asks) + d.tokens) * 0x1_0000_0000 <= b.tokens * 0x1_0000_0000
                + b.refill_rate * (d.last_refill_ts - b.last_refill_ts)
            &&& d.last_refill_ts == if asks.len() == 0 {
                b.last_refill_ts
            } else {
                asks.last().1
            }
            &&& d.refill_rate == b.refill_rate
            &&& d.tokens <= d.capacity
        }),
    decreases asks.len(),
{
    if asks.len() > 0 {
        let rest = asks.drop_last();
        assert forall|i: int| 0 <= i < rest.len() implies b.last_refill_ts <= (
        #[trigger] rest[i]).1 by {
            assert(rest[i] == asks[i]);
        }
        assert forall|i: int, j: int| 0 <= i < j < rest.len() implies (#[trigger] rest[i]).1 <= (
        #[trigger] rest[j]).1 by {
            assert(rest[i] == asks[i] && rest[j] == asks[j]);
        }
        lemma_grants_bounded_by_time(b, rest);
        let d = drain(b, rest);
        let ask = asks.last();
        let last = asks.len() - 1;
        assert(asks[last].1 == ask.1);
        if rest.len() > 0 {
            assert(rest.last() == asks[last - 1]);
            assert(asks[last - 1].1 <= asks[last].1);
        }
        lemma_request_takes_its_tokens(d, ask.0, ask.1);
        let e = ask.1 - d.last_refill_ts;
        let (r, f) = (b.refill_rate as int, d.last_refill_ts - b.last_refill_ts);
        assert(e >= 0);
        assert(e * r == r * e && r * (f + e) == r * f + r * e) by (nonlinear_arith);
        assert(d.elapsed(ask.1) == e);
        assert(d.refilled(ask.1) <= d.tokens + (e * r) / 0x1_0000_0000);
        assert(((e * r) / 0x1_0000_0000) * 0x1_0000_0000 <= e * r);
        assert(drain(b, asks).last_refill_ts - b.last_refill_ts == f + e);
    }
}

} // verus!
