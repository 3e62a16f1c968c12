//! Funding rate model, countdown and arbitrage detection for perpetual swaps.
//!
//! Rates are scaled by 1e9.

use crate::fixed::{
    abs, abs_i64, cast_i64, clamp, clamp_i64, div_i64, fits_i64, fits_u64, lemma_tdiv_rounds, max,
    min, min_u64, seq_sum, tdiv,
};
use crate::ring::{lemma_ring_push, pushed, ring};
use vstd::prelude::*;

verus! {

/// Fixed-point scaling factor (1e9).
pub const FP_SCALE: i64 = 1_000_000_000;

/// Funding interval in seconds (8 hours).
pub const FUNDING_INTERVAL_SEC: u64 = 28_800;

/// Funding interval in microseconds.
pub const FUNDING_INTERVAL_US: u64 = 28_800_000_000;

/// Funding rate model over premium samples.
#[derive(Debug)]
pub struct FundingRateModel {
    pub current_rate: i64,
    pub predicted_rate: i64,
    /// Sum of the premium samples of this period.
    pub premium_sum: i64,
    /// Number of premium samples of this period.
    pub sample_count: u64,
    pub last_funding_ts: u64,
}

/// Countdown to the next funding.
#[derive(Debug)]
pub struct FundingCountdown {
    pub next_funding_us: u64,
    pub current_ts_us: u64,
    pub time_remaining_us: u64,
    pub period_id: u64,
}

/// Circular buffer over the last 64 funding rates, with the sums of the rates
/// and of their squares.
pub struct RollingFundingBuffer {
    pub buffer: [i64; 64],
    /// Number of rates pushed.
    pub head: u64,
    /// Sum over the buffer.
    pub sum: i64,
    /// Sum of the squares over the buffer.
    pub variance_sum: i64,
}

impl Default for FundingRateModel {
    fn default() -> (r: Self)
        ensures
            r == (FundingRateModel {
                current_rate: 0,
                predicted_rate: 0,
                premium_sum: 0,
                sample_count: 0,
                last_funding_ts: 0,
            }),
    {
        FundingRateModel {
            current_rate: 0,
            predicted_rate: 0,
            premium_sum: 0,
            sample_count: 0,
            last_funding_ts: 0,
        }
    }
}

impl Default for FundingCountdown {
    fn default() -> (r: Self)
        ensures
            r == (FundingCountdown {
                next_funding_us: 0,
                current_ts_us: 0,
                time_remaining_us: 0,
                period_id: 0,
            }),
    {
        FundingCountdown { next_funding_us: 0, current_ts_us: 0, time_remaining_us: 0, period_id: 0 }
    }
}

impl Default for RollingFundingBuffer {
    fn default() -> (r: Self)
        ensures
            r.wf(),
            r.buffer@ == Seq::new(64, |i: int| 0i64),
            r.head == 0,
            r.sum == 0,
            r.variance_sum == 0,
    {
        let r = RollingFundingBuffer { buffer: [0i64; 64], head: 0, sum: 0, variance_sum: 0 };
        assert(r.buffer@ =~= Seq::new(64, |i: int| 0i64));
        proof {
            crate::fixed::lemma_sum_zeros(r.buffer@);
            lemma_squares_zeros(r.buffer@);
        }
        r
    }
}

/// Fixed-point square of a rate.
pub open spec fn square(rate: int) -> int {
    (rate * rate) / (FP_SCALE as int)
}

/// Sum of the squares of a sequence of rates.
pub open spec fn squares(s: Seq<i64>) -> int
    decreases s.len(),
{
    if s.len() == 0 {
        0
    } else {
        squares(s.drop_last()) + square(s.last() as int)
    }
}

proof fn lemma_squares_update(s: Seq<i64>, i: int, v: i64)
    requires
        0 <= i < s.len(),
    ensures
        squares(s.update(i, v)) == squares(s) - square(s[i] as int) + square(v as int),
    decreases s.len(),
{
    if i == s.len() - 1 {
        assert(s.update(i, v).drop_last() =~= s.drop_last());
    } else {
        lemma_squares_update(s.drop_last(), i, v);
        assert(s.update(i, v).drop_last() =~= s.drop_last().update(i, v));
    }
}

proof fn lemma_squares_zeros(s: Seq<i64>)
    requires
        forall|i: int| 0 <= i < s.len() ==> s[i] == 0,
    ensures
        squares(s) == 0,
    decreases s.len(),
{
    if s.len() > 0 {
        lemma_squares_zeros(s.drop_last());
        assert(square(0) == 0);
    }
}

impl FundingRateModel {
    /// Average premium, clamped to 0.75% either way; zero without samples.
    pub open spec fn funding_rate(&self) -> int {
        if self.sample_count == 0 {
            0
        } else {
            clamp(
                tdiv(self.premium_sum as int, (self.sample_count as i64) as int),
                -7_500_000,
                7_500_000,
            )
        }
    }

    /// The average premium is a number.
    pub open spec fn can_average(&self) -> bool {
        !(self.premium_sum == i64::MIN && self.sample_count as i64 == -1)
    }

    /// Momentum prediction from the last two rates pushed, clamped to 1% either way;
    /// with fewer than two rates, `current_rate`.
    pub open spec fn prediction(current_rate: i64, rates: Seq<i64>) -> int {
        if rates.len() < 2 {
            current_rate as int
        } else {
            let current = rates[rates.len() - 1];
            let previous = rates[rates.len() - 2];
            clamp(
                current + tdiv((current - previous) * 700_000_000, FP_SCALE as int),
                -10_000_000,
                10_000_000,
            )
        }
    }

    /// A prediction computes no number out of range.
    pub open spec fn can_predict(rates: Seq<i64>) -> bool {
        rates.len() >= 2 ==> {
            let current = rates[rates.len() - 1];
            let previous = rates[rates.len() - 2];
            &&& fits_i64(current - previous)
            &&& fits_i64((current - previous) * 700_000_000)
            &&& fits_i64(current + tdiv((current - previous) * 700_000_000, FP_SCALE as int))
        }
    }

    /// Add a premium sample.
    pub fn update_premium(&mut self, premium: i64)
        ensures
            *final(self) == (FundingRateModel {
                premium_sum: old(self).premium_sum.wrapping_add(premium),
                sample_count: old(self).sample_count.wrapping_add(1),
                ..*old(self)
            }),
    {
        self.premium_sum = self.premium_sum.wrapping_add(premium);
        self.sample_count = self.sample_count.wrapping_add(1);
    }

    /// Funding rate from the premium samples.
    pub fn calc_funding_rate(&self) -> (r: i64)
        requires
            self.can_average(),
        ensures
            r == self.funding_rate(),
    {
        if self.sample_count == 0 {
            return 0;
        }
        let avg: i64 = div_i64(self.premium_sum, cast_i64(self.sample_count));
        clamp_i64(avg, -7_500_000, 7_500_000)
    }

    /// Predict the next funding rate from the last two rates.
    pub fn predict_next_rate(&self, buffer: &RollingFundingBuffer) -> (r: i64)
        requires
            Self::can_predict(buffer.rates()),
        ensures
            r == Self::prediction(self.current_rate, buffer.rates()),
    {
        let count: u64 = min_u64(buffer.head, 64);
        if count < 2 {
            return self.current_rate;
        }
        let current: i64 = buffer.buffer[((buffer.head - 1) % 64) as usize];
        let previous: i64 = buffer.buffer[((buffer.head - 2) % 64) as usize];
        assert(current == buffer.rates()[count - 1]);
        assert(previous == buffer.rates()[count - 2]);
        let delta: i64 = current - previous;
        let prediction: i64 = current + div_i64(delta * 700_000_000, FP_SCALE);
        clamp_i64(prediction, -10_000_000, 10_000_000)
    }

    /// Close the period: set current and predicted rate and forget the
    /// premium samples.
    pub fn update_rates(&mut self, buffer: &RollingFundingBuffer)
        requires
            old(self).can_average(),
            Self::can_predict(buffer.rates()),
        ensures
            *final(self) == (FundingRateModel {
                current_rate: old(self).funding_rate() as i64,
                predicted_rate: Self::prediction(
                    old(self).funding_rate() as i64,
                    buffer.rates(),
                ) as i64,
                premium_sum: 0,
                sample_count: 0,
                ..*old(self)
            }),
    {
        let new_rate: i64 = self.calc_funding_rate();
        self.current_rate = new_rate;
        let predicted: i64 = self.predict_next_rate(buffer);
        self.predicted_rate = predicted;
        self.premium_sum = 0;
        self.sample_count = 0;
    }

    /// Current funding rate.
    pub fn get_current_rate(&self) -> (r: i64)
        ensures
            r == self.current_rate,
    {
        self.current_rate
    }

    /// Predicted funding rate.
    pub fn get_predicted_rate(&self) -> (r: i64)
        ensures
            r == self.predicted_rate,
    {
        self.predicted_rate
    }

    /// Rates of up to four venues relative to a benchmark. Four venues are
    /// computed in one wrapping vector operation.
    pub fn simd_funding_spread<const N: usize>(&self, venue_rates: &[i64; N], benchmark: i64) -> (r:
        [i64; N])
        requires
            N <= 4,
            N < 4 ==> forall|i: int|
                0 <= i < N ==> fits_i64(#[trigger] venue_rates@[i] - benchmark),
        ensures
            forall|i: int|
                0 <= i < N ==> #[trigger] r@[i] == venue_rates@[i].wrapping_sub(benchmark),
    {
        let mut result = [0i64; N];
        let mut i: usize = 0;
        while i < N
            invariant
                i <= N,
                forall|j: int|
                    0 <= j < i ==> #[trigger] result@[j] == venue_rates@[j].wrapping_sub(benchmark),
            decreases N - i,
        {
            result[i] = venue_rates[i].wrapping_sub(benchmark);
            i = i + 1;
        }
        result
    }
}

impl FundingCountdown {
    /// Start the countdown at `current_ts_us`: funding comes at the next
    /// multiple of the interval.
    pub fn init(&mut self, current_ts_us: u64)
        requires
            fits_u64(
                current_ts_us + FUNDING_INTERVAL_US - current_ts_us as int
                    % FUNDING_INTERVAL_US as int,
            ),
        ensures
            *final(self) == (FundingCountdown {
                current_ts_us,
                time_remaining_us: (FUNDING_INTERVAL_US - current_ts_us % FUNDING_INTERVAL_US) as u64,
                next_funding_us: (current_ts_us + (FUNDING_INTERVAL_US - current_ts_us
                    % FUNDING_INTERVAL_US)) as u64,
                period_id: old(self).period_id.wrapping_add(1),
            }),
            final(self).next_funding_us as int % FUNDING_INTERVAL_US as int == 0,
            final(self).next_funding_us - current_ts_us == final(self).time_remaining_us,
            0 < final(self).time_remaining_us <= FUNDING_INTERVAL_US,
            final(self).next_funding_us as int % 28_800_000_000 == 0,
            0 < final(self).time_remaining_us <= 28_800_000_000,
    {
        self.current_ts_us = current_ts_us;
        let elapsed: u64 = current_ts_us % FUNDING_INTERVAL_US;
        let remaining: u64 = FUNDING_INTERVAL_US - elapsed;
        let next_funding: u64 = current_ts_us + remaining;
        self.next_funding_us = next_funding;
        self.time_remaining_us = remaining;
        self.period_id = self.period_id.wrapping_add(1);
    }

    /// Advance to `current_ts_us`. Where funding has come, the countdown goes
    /// on to the next interval.
    pub fn tick(&mut self, current_ts_us: u64) -> (r: u64)
        requires
            current_ts_us >= old(self).next_funding_us ==> {
                &&& fits_u64(old(self).next_funding_us + FUNDING_INTERVAL_US)
                &&& current_ts_us <= old(self).next_funding_us + FUNDING_INTERVAL_US
            },
        ensures
            *final(self) == if current_ts_us >= old(self).next_funding_us {
                FundingCountdown {
                    current_ts_us,
                    next_funding_us: (old(self).next_funding_us + FUNDING_INTERVAL_US) as u64,
                    period_id: old(self).period_id.wrapping_add(1),
                    time_remaining_us: r,
                }
            } else {
                FundingCountdown { current_ts_us, time_remaining_us: r, ..*old(self) }
            },
            r == final(self).next_funding_us - current_ts_us,
    {
        self.current_ts_us = current_ts_us;
        let next: u64 = self.next_funding_us;
        let remaining: u64 = if current_ts_us >= next {
            let new_next: u64 = next + FUNDING_INTERVAL_US;
            self.next_funding_us = new_next;
            self.period_id = self.period_id.wrapping_add(1);
            new_next - current_ts_us
        } else {
            next - current_ts_us
        };
        self.time_remaining_us = remaining;
        remaining
    }

    /// Microseconds until the next funding.
    pub fn time_remaining(&self) -> (r: u64)
        ensures
            r == self.time_remaining_us,
    {
        self.time_remaining_us
    }

    /// Hours, minutes and seconds until the next funding.
    pub fn time_remaining_formatted(&self) -> (r: (u32, u32, u32))
        ensures
            r.0 == (self.time_remaining_us / 3_600_000_000) as u32,
            r.1 == (self.time_remaining_us % 3_600_000_000) / 60_000_000,
            r.2 == (self.time_remaining_us % 60_000_000) / 1_000_000,
            r.1 < 60,
            r.2 < 60,
            self.time_remaining_us / 3_600_000_000 <= u32::MAX ==> r.0 * 3600 + r.1 * 60 + r.2
                == self.time_remaining_us / 1_000_000,
    {
        let remaining_us: u64 = self.time_remaining_us;
        let hours: u32 = (remaining_us / 3_600_000_000) as u32;
        let minutes: u32 = ((remaining_us % 3_600_000_000) / 60_000_000) as u32;
        let seconds: u32 = ((remaining_us % 60_000_000) / 1_000_000) as u32;
        (hours, minutes, seconds)
    }

    /// Funding is less than one minute away.
    pub fn is_imminent(&self) -> (r: bool)
        ensures
            r == (self.time_remaining_us < 60_000_000),
    {
        self.time_remaining_us < 60_000_000
    }

    /// Identifier of the current period.
    pub fn get_period_id(&self) -> (r: u64)
        ensures
            r == self.period_id,
    {
        self.period_id
    }
}

/// One Newton step toward the square root of `v`.
pub open spec fn newton(guess: int, v: int) -> int {
    (guess + v / guess) / 2
}

/// First guess at the square root of `v`.
pub open spec fn first_guess(v: int) -> int {
    max(v / 2, 1)
}

proof fn lemma_newton(v: int)
    requires
        1 <= v <= i64::MAX,
    ensures
        1 <= first_guess(v),
        0 <= v / first_guess(v) <= 3,
        1 <= newton(first_guess(v), v) <= first_guess(v) + 1,
        0 <= v / newton(first_guess(v), v),
        newton(first_guess(v), v) + v / newton(first_guess(v), v) <= i64::MAX,
        1 <= newton(newton(first_guess(v), v), v),
{
    if v == 1 {
        assert(v / 1 == 1);
    } else {
        let g = v / 2;
        assert(2 <= v / g <= 3) by (nonlinear_arith)
            requires
                v >= 2,
                g == v / 2,
        ;
        let h = newton(g, v);
        if h >= 2 {
            assert(0 <= v / h <= v / 2) by (nonlinear_arith)
                requires
                    v >= 2,
                    h >= 2,
            ;
        } else {
            assert(v <= 3);
            assert(v / 1 == v);
        }
    }
}

impl RollingFundingBuffer {
    /// Both sums run over the buffer.
    pub open spec fn wf(&self) -> bool {
        &&& self.sum == seq_sum(self.buffer@)
        &&& self.variance_sum == squares(self.buffer@)
        &&& forall|i: int|
            0 <= i < 64 ==> fits_i64((#[trigger] self.buffer@[i]) * self.buffer@[i])
    }

    /// Slot that the next rate goes to.
    pub open spec fn slot(&self) -> int {
        self.head as int % 64
    }

    /// Number of rates in the buffer.
    pub open spec fn count(&self) -> int {
        min(self.head as int, 64)
    }

    /// The rates in the buffer, oldest first.
    pub open spec fn rates(&self) -> Seq<i64> {
        ring(self.buffer@, self.head as int, self.count())
    }

    /// Average rate, zero for an empty buffer.
    pub open spec fn average(&self) -> int {
        if self.count() == 0 {
            0
        } else {
            tdiv(self.sum as int, self.count())
        }
    }

    /// Mean of the squares minus square of the mean, at least zero.
    pub open spec fn variance(&self) -> int {
        max(tdiv(self.variance_sum as int, self.count()) - square(self.average()), 0)
    }

    /// Push a rate in place of the oldest one.
    pub fn push(&mut self, rate: i64)
        requires
            old(self).wf(),
            fits_i64(old(self).sum - old(self).buffer@[old(self).slot()]),
            fits_i64(old(self).sum - old(self).buffer@[old(self).slot()] + rate),
            fits_i64(rate * rate),
            fits_i64(
                old(self).variance_sum - square(old(self).buffer@[old(self).slot()] as int),
            ),
            fits_i64(
                old(self).variance_sum - square(old(self).buffer@[old(self).slot()] as int)
                    + square(rate as int),
            ),
        ensures
            final(self).wf(),
            final(self).buffer@ == old(self).buffer@.update(old(self).slot(), rate),
            final(self).head == old(self).head.wrapping_add(1),
            old(self).head < u64::MAX ==> final(self).rates() == pushed(old(self).rates(), 64, rate),
            final(self).sum == old(self).sum - old(self).buffer@[old(self).slot()] + rate,
            final(self).variance_sum == old(self).variance_sum - square(
                old(self).buffer@[old(self).slot()] as int,
            ) + square(rate as int),
    {
        let idx: usize = (self.head % 64) as usize;
        let old_value: i64 = self.buffer[idx];
        proof {
            crate::fixed::lemma_sum_update(self.buffer@, idx as int, rate);
            lemma_ring_push(self.buffer@, self.head as int, self.count(), rate);
            lemma_squares_update(self.buffer@, idx as int, rate);
            assert(old_value * old_value >= 0) by (nonlinear_arith);
            assert(rate * rate >= 0) by (nonlinear_arith);
        }
        self.head = self.head.wrapping_add(1);
        self.sum = self.sum - old_value + rate;
        let old_sq: i64 = old_value * old_value / FP_SCALE;
        let new_sq: i64 = rate * rate / FP_SCALE;
        self.variance_sum = self.variance_sum - old_sq + new_sq;
        self.buffer[idx] = rate;
    }

    /// Average rate.
    pub fn rolling_average(&self) -> (r: i64)
        requires
            self.wf(),
        ensures
            r == self.average(),
    {
        let count: u64 = min_u64(self.head, 64);
        if count == 0 {
            return 0;
        }
        div_i64(self.sum, count as i64)
    }

    /// Estimate of the standard deviation: two Newton steps toward the square
    /// root of the variance.
    pub fn volatility_estimate(&self) -> (r: i64)
        requires
            self.wf(),
            self.count() >= 2 ==> {
                &&& fits_i64(self.average() * self.average())
                &&& fits_i64(
                    tdiv(self.variance_sum as int, self.count()) - square(self.average()),
                )
            },
        ensures
            r == if self.count() < 2 || self.variance() == 0 {
                0
            } else {
                newton(newton(first_guess(self.variance()), self.variance()), self.variance())
            },
            r >= 0,
    {
        let count: u64 = min_u64(self.head, 64);
        if count < 2 {
            return 0;
        }
        let mean: i64 = self.rolling_average();
        assert(mean * mean >= 0) by (nonlinear_arith);
        let mean_sq: i64 = mean * mean / FP_SCALE;
        let spread: i64 = div_i64(self.variance_sum, count as i64) - mean_sq;
        let variance: i64 = if spread > 0 {
            spread
        } else {
            0
        };
        if variance == 0 {
            return 0;
        }
        proof {
            lemma_newton(variance as int);
        }
        let guess: i64 = if variance > 2 {
            variance / 2
        } else {
            1
        };
        let second: i64 = (guess + variance / guess) / 2;
        (second + variance / second) / 2
    }

    /// The rate pushed `offset` pushes before the last one, or zero where it
    /// is no longer kept.
    pub fn get_at_offset(&self, offset: u64) -> (r: i64)
        ensures
            r == if offset >= self.rates().len() {
                0i64
            } else {
                self.rates()[self.rates().len() - 1 - offset]
            },
    {
        if offset >= self.head || offset >= 64 {
            return 0;
        }
        let idx: usize = ((self.head - 1 - offset) % 64) as usize;
        self.buffer[idx]
    }
}

/// Detector of funding rate differences between venues.
#[derive(Debug)]
pub struct FundingArbDetector {
    /// Smallest spread that is no opportunity.
    pub threshold: i64,
    pub last_spread: i64,
    pub opportunity_count: u64,
}

impl Default for FundingArbDetector {
    fn default() -> (r: Self)
        ensures
            r == (FundingArbDetector { threshold: 1_000, last_spread: 0, opportunity_count: 0 }),
    {
        FundingArbDetector { threshold: 1_000, last_spread: 0, opportunity_count: 0 }
    }
}

impl FundingArbDetector {
    /// Compare the rates of two venues: an opportunity is a spread above the
    /// threshold.
    pub fn check_arb(&mut self, rate_a: i64, rate_b: i64) -> (r: bool)
        requires
            i64::MIN < rate_a - rate_b <= i64::MAX,
        ensures
            r == (abs(rate_a - rate_b) > old(self).threshold),
            *final(self) == (FundingArbDetector {
                last_spread: abs(rate_a - rate_b) as i64,
                opportunity_count: if r {
                    old(self).opportunity_count.wrapping_add(1)
                } else {
                    old(self).opportunity_count
                },
                ..*old(self)
            }),
    {
        let spread: i64 = abs_i64(rate_a - rate_b);
        self.last_spread = spread;
        let is_opportunity = spread > self.threshold;
        if is_opportunity {
            self.opportunity_count = self.opportunity_count.wrapping_add(1);
        }
        is_opportunity
    }

    /// Number of opportunities seen.
    pub fn get_opportunity_count(&self) -> (r: u64)
        ensures
            r == self.opportunity_count,
    {
        self.opportunity_count
    }

    /// Set the threshold, at least zero.
    pub fn set_threshold(&mut self, threshold: i64)
        ensures
            *final(self) == (FundingArbDetector {
                threshold: max(threshold as int, 0) as i64,
                ..*old(self)
            }),
    {
        self.threshold = if threshold > 0 {
            threshold
        } else {
            0
        };
    }
}

/// Countdowns stay on the grid: where funding came at a multiple of the
/// interval, the next one does too.
pub proof fn lemma_tick_keeps_grid(next: int)
    requires
        next % (FUNDING_INTERVAL_US as int) == 0,
    ensures
        (next + FUNDING_INTERVAL_US) % (FUNDING_INTERVAL_US as int) == 0,
{
}

/// A prediction depends on the last two rates pushed and on nothing before them.
pub proof fn lemma_predicts_from_last_two(rates: Seq<i64>, previous: i64, current: i64, rate: i64)
    ensures
        FundingRateModel::prediction(rate, pushed(pushed(rates, 64, previous), 64, current))
            == clamp(
            current + tdiv((current - previous) * 700_000_000, FP_SCALE as int),
            -10_000_000,
            10_000_000,
        ),
{
}

/// Funding rates are bounded by 0.75% either way.
pub proof fn lemma_funding_rate_clamped(m: FundingRateModel)
    ensures
        -7_500_000 <= m.funding_rate() <= 7_500_000,
{
}

/// The funding rate is the average premium, rounded toward zero, and at most 0.75% either
/// way.
pub proof fn lemma_rate_is_average_premium(m: FundingRateModel)
    requires
        0 < m.sample_count <= i64::MAX,
    ensures
        ({
            let (sum, n, r) = (m.premium_sum, m.sample_count, m.funding_rate());
            &&& 0 <= sum < 7_500_000 * n ==> r * n <= sum < (r + 1) * n
            &&& -7_500_000 * n < sum <= 0 ==> (r - 1) * n < sum <= r * n
            &&& sum >= 7_500_000 * n ==> r == 7_500_000
            &&& sum <= -7_500_000 * n ==> r == -7_500_000
        }),
{
    let (s, n) = (m.premium_sum as int, m.sample_count as int);
    lemma_tdiv_rounds(s, n);
    let q = tdiv(s, n);
    assert((q + 1) * n == q * n + n && (q - 1) * n == q * n - n) by (nonlinear_arith);
    assert(0 <= s < 7_500_000 * n ==> 0 <= q < 7_500_000) by (nonlinear_arith)
        requires
            s >= 0 ==> 0 <= s - q * n < n,
            n > 0,
    ;
    assert(-7_500_000 * n < s <= 0 ==> -7_500_000 < q <= 0) by (nonlinear_arith)
        requires
            s <= 0 ==> -n < s - q * n <= 0,
            n > 0,
    ;
    assert(s >= 7_500_000 * n ==> q >= 7_500_000) by (nonlinear_arith)
        requires
            s >= 0 ==> 0 <= s - q * n < n,
            n > 0,
    ;
    assert(s <= -7_500_000 * n ==> q <= -7_500_000) by (nonlinear_arith)
        requires
            s <= 0 ==> -n < s - q * n <= 0,
            n > 0,
    ;
}

/// The prediction goes on from the last rate by seven tenths of the last change, rounded
/// toward zero, in the same direction, and is at most 1% either way.
pub proof fn lemma_prediction_goes_on(rate: i64, rates: Seq<i64>, previous: i64, current: i64)
    requires
        -10_000_000 < current < 10_000_000,
        -10_000_000 < previous < 10_000_000,
    ensures
        ({
            let p = FundingRateModel::prediction(rate, rates.push(previous).push(current));
            let exact = 7 * (current - previous);
            let step = p - current;
            &&& -10_000_000 <= p <= 10_000_000
            &&& exact >= 0 && p < 10_000_000 ==> 10 * step <= exact < 10 * step + 10
            &&& exact <= 0 && p > -10_000_000 ==> 10 * step - 10 < exact <= 10 * step
            &&& exact >= 0 ==> step >= 0
            &&& exact <= 0 ==> step <= 0
        }),
{
    let d = (current - previous) * 700_000_000;
    lemma_tdiv_rounds(d, 1_000_000_000);
    assert(rates.push(previous).push(current).last() == current);
}

/// With fewer than two rates there is nothing to go on from: the current rate stands.
pub proof fn lemma_prediction_without_history(rate: i64, rates: Seq<i64>)
    requires
        rates.len() < 2,
    ensures
        FundingRateModel::prediction(rate, rates) == rate,
{
}

/// The average of the buffer times the number of rates is their sum, short of it by less
/// than that number on the side of zero; the variance is the mean of the squares less the
/// square of the mean, and never negative.
pub proof fn lemma_buffer_average(b: RollingFundingBuffer)
    requires
        b.head > 0,
    ensures
        ({
            let n = if b.head < 64 {
                b.head as int
            } else {
                64
            };
            let a = b.average();
            &&& b.count() == n
            &&& b.sum >= 0 ==> a * n <= b.sum < (a + 1) * n
            &&& b.sum <= 0 ==> (a - 1) * n < b.sum <= a * n
        }),
        b.variance() >= 0,
{
    let (s, n) = (b.sum as int, b.count());
    lemma_tdiv_rounds(s, n);
    let q = tdiv(s, n);
    assert((q + 1) * n == q * n + n && (q - 1) * n == q * n - n) by (nonlinear_arith);
}

/// The square of a rate, in scaled units and rounded down.
pub proof fn lemma_square_scaled(rate: int)
    ensures
        square(rate) * 1_000_000_000 <= rate * rate < (square(rate) + 1) * 1_000_000_000,
        square(-rate) == square(rate),
{
    let x = rate * rate;
    assert((-rate) * (-rate) == x) by (nonlinear_arith)
        requires
            x == rate * rate,
    ;
}

/// The estimate of a deviation never falls short of the root of the variance.
pub proof fn lemma_newton_above_root(guess: int, v: int)
    requires
        guess > 0,
        v > 0,
    ensures
        v < (newton(guess, v) + 1) * (newton(guess, v) + 1),
{
    let y = newton(guess, v);
    let q = v / guess;
    vstd::arithmetic::div_mod::lemma_fundamental_div_mod(v, guess);
    vstd::arithmetic::div_mod::lemma_mod_bound(v, guess);
    assert(guess * (q + 1) == guess * q + guess) by (nonlinear_arith);
    assert(2 * y + 1 >= guess + q);
    assert(v < (y + 1) * (y + 1)) by (nonlinear_arith)
        requires
            2 * y + 1 >= guess + q,
            v < guess * (q + 1),
            guess > 0,
            q >= 0,
    ;
}

/// The variance of the rates is the mean of their squares less the square of their mean,
/// and zero where rounding would make that negative.
pub proof fn lemma_variance_is_spread(b: RollingFundingBuffer)
    ensures
        b.variance() >= 0,
        b.variance() >= tdiv(b.variance_sum as int, b.count()) - square(b.average()),
        b.variance() > 0 ==> b.variance() + square(b.average()) == tdiv(
            b.variance_sum as int,
            b.count(),
        ),
{
}

} // verus!
