//! OKX: portfolio state and API rate limits.

use vstd::prelude::*;
use crate::fixed::min;

verus! {

/// Price in fixed-point units.
pub type FixedPrice = i64;

/// Quantity in fixed-point units.
pub type FixedQty = i64;

/// Account mode.
#[derive(Debug, Clone, Copy, PartialEq, Eq, Structural)]
pub enum OkxAccountMode {
    Cash,
    MarginIsolated,
    MarginCross,
    PortfolioMargin,
}

/// Portfolio state.
#[derive(Debug)]
pub struct OkxPortfolio {
    /// Total equity.
    pub total_equity: i64,
    /// Total profit.
    pub total_pnl: i64,
    /// Margin balance.
    pub margin_balance: i64,
    /// Available balance.
    pub available_balance: i64,
    /// Frozen balance.
    pub frozen_balance: i64,
    /// Account mode, by number.
    pub account_mode: u8,
}

impl OkxPortfolio {
    /// Empty cash account.
    pub fn new() -> (r: Self)
        ensures
            r == (OkxPortfolio {
                total_equity: 0,
                total_pnl: 0,
                margin_balance: 0,
                available_balance: 0,
                frozen_balance: 0,
                account_mode: 0,
            }),
    {
        OkxPortfolio {
            total_equity: 0,
            total_pnl: 0,
            margin_balance: 0,
            available_balance: 0,
            frozen_balance: 0,
            account_mode: 0,
        }
    }
}

/// API rate limit tracker.
#[derive(Debug)]
pub struct OkxRateLimiter {
    /// Requests per second.
    pub requests_per_second: u64,
    /// Burst capacity.
    pub burst_capacity: u64,
    /// Requests that may still be made.
    pub current_tokens: u64,
    /// Last refill.
    pub last_refill_ticks: u64,
    /// Requests rejected.
    pub rejected_count: u64,
}

impl OkxRateLimiter {
    /// Limiter with a full burst.
    pub fn new(rps: u64, burst: u64) -> (r: Self)
        ensures
            r == (OkxRateLimiter {
                requests_per_second: rps,
                burst_capacity: burst,
                current_tokens: burst,
                last_refill_ticks: 0,
                rejected_count: 0,
            }),
    {
        OkxRateLimiter {
            requests_per_second: rps,
            burst_capacity: burst,
            current_tokens: burst,
            last_refill_ticks: 0,
            rejected_count: 0,
        }
    }

    /// The limiter after a request.
    pub open spec fn after(self) -> Self {
        if self.current_tokens > 0 {
            OkxRateLimiter { current_tokens: (self.current_tokens - 1) as u64, ..self }
        } else {
            OkxRateLimiter { rejected_count: self.rejected_count.wrapping_add(1), ..self }
        }
    }

    /// The limiter after a number of requests.
    pub open spec fn after_all(self, n: nat) -> Self
        decreases n,
    {
        if n == 0 {
            self
        } else {
            self.after_all((n - 1) as nat).after()
        }
    }

    /// Ask for a request.
    pub fn try_acquire(&mut self) -> (r: bool)
        ensures
            r == (old(self).current_tokens > 0),
            *final(self) == old(self).after(),
    {
        if self.current_tokens > 0 {
            self.current_tokens = self.current_tokens - 1;
            true
        } else {
            self.rejected_count = self.rejected_count.wrapping_add(1);
            false
        }
    }
}

/// Of any run of requests, as many are granted as there are tokens, and the rest
/// is rejected.
pub proof fn lemma_burst_is_limit(limiter: OkxRateLimiter, n: nat)
    requires
        limiter.rejected_count + n <= u64::MAX,
    ensures
        limiter.after_all(n).current_tokens == limiter.current_tokens - min(
            n as int,
            limiter.current_tokens as int,
        ),
        limiter.after_all(n).rejected_count == limiter.rejected_count + n - min(
            n as int,
            limiter.current_tokens as int,
        ),
    decreases n,
{
    if n > 0 {
        lemma_burst_is_limit(limiter, (n - 1) as nat);
    }
}

/// A request takes one token while there is one and is counted as refused when there is
/// none. Neither the rate nor the capacity nor the time of the last refill moves.
pub proof fn lemma_request_takes_a_token(limiter: OkxRateLimiter)
    ensures
        limiter.current_tokens > 0 ==> limiter.after().current_tokens + 1
            == limiter.current_tokens && limiter.after().rejected_count == limiter.rejected_count,
        limiter.current_tokens == 0 ==> limiter.after().current_tokens == 0,
        limiter.current_tokens == 0 && limiter.rejected_count < 0xffff_ffff_ffff_ffff
            ==> limiter.after().rejected_count == limiter.rejected_count + 1,
        limiter.after().requests_per_second == limiter.requests_per_second,
        limiter.after().burst_capacity == limiter.burst_capacity,
        limiter.after().last_refill_ticks == limiter.last_refill_ticks,
{
}

} // verus!
