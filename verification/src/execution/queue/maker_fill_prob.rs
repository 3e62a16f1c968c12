//! Probability of maker fills from order book depletion and observed fills.

use vstd::prelude::*;
use crate::fixed::{abs, clamp, div_i128, lemma_tdiv_monotone, lemma_tdiv_rounds, min, tdiv};

verus! {

broadcast use vstd::array::group_array_axioms;

/// Fixed-point scaling factor (10^8).
pub const FIXED_SCALE: i64 = 100_000_000;

/// Even odds.
pub const HALF: u64 = 50_000_000;

/// Number of price levels.
pub const DEPTH_BINS: usize = 32;

/// Book state snapshot.
#[derive(Debug)]
pub struct BookState {
    /// Depth of each bid level.
    pub bid_depth: Box<[i64; 32]>,
    /// Depth of each ask level.
    pub ask_depth: Box<[i64; 32]>,
    /// Best bid.
    pub best_bid: i64,
    /// Best ask.
    pub best_ask: i64,
    /// Spread in basis points (fixed-point).
    pub spread_bps: i64,
    /// Order flow imbalance (fixed-point).
    pub imbalance: i64,
    /// Time of the snapshot.
    pub timestamp_cycles: u64,
    /// Fills the cache line.
    pub padding: [u8; 8],
}

impl Default for BookState {
    fn default() -> (r: Self)
        ensures
            forall|i: int| 0 <= i < DEPTH_BINS ==> r.bid_depth@[i] == 0,
            forall|i: int| 0 <= i < DEPTH_BINS ==> r.ask_depth@[i] == 0,
            r.best_bid == 0,
            r.best_ask == 0,
            r.spread_bps == 0,
            r.imbalance == 0,
            r.timestamp_cycles == 0,
    {
        BookState {
            bid_depth: Box::new([0i64;32]),
            ask_depth: Box::new([0i64;32]),
            best_bid: 0,
            best_ask: 0,
            spread_bps: 0,
            imbalance: 0,
            timestamp_cycles: 0,
            padding: [0u8;8],
        }
    }
}

/// Historical fill statistics.
#[derive(Debug)]
pub struct FillHistory {
    /// Orders observed.
    pub total_orders: u64,
    /// Orders filled.
    pub filled_orders: u64,
    /// Orders partially filled.
    pub partial_fills: u64,
    /// Average time to fill.
    pub avg_fill_time_us: u64,
    /// Fill rate of each level (fixed-point).
    pub fill_rate_at_level: Box<[i64; 32]>,
    /// Fills the cache line.
    pub padding: [u8; 24],
}

impl Default for FillHistory {
    fn default() -> (r: Self)
        ensures
            r.total_orders == 0,
            r.filled_orders == 0,
            r.partial_fills == 0,
            r.avg_fill_time_us == 0,
            forall|i: int| 0 <= i < DEPTH_BINS ==> r.fill_rate_at_level@[i] == 0,
    {
        FillHistory {
            total_orders: 0,
            filled_orders: 0,
            partial_fills: 0,
            avg_fill_time_us: 0,
            fill_rate_at_level: Box::new([0i64;32]),
            padding: [0u8;24],
        }
    }
}

/// Fill rate after a depletion: a moving average in which the newest volume, in
/// thousands, weighs a tenth; held between zero and one.
pub open spec fn next_rate(rate: int, volume: int) -> int {
    clamp(
        tdiv(rate * 90_000_000 + volume * 1_000_000_000_000, FIXED_SCALE as int),
        0,
        FIXED_SCALE as int,
    )
}

/// Posterior mean of a fill probability after `alpha` fills and `beta` others.
pub open spec fn posterior_mean(alpha: int, beta: int) -> int {
    (alpha * FIXED_SCALE) / (alpha + beta)
}

/// Maker fill probability estimator.
#[derive(Debug)]
pub struct MakerFillProbability {
    /// Latest snapshot.
    pub book_state: BookState,
    /// History.
    pub history: FillHistory,
    /// Running sum of depletions.
    pub depletion_sum: u64,
    /// Number of depletions.
    pub depletion_count: u64,
    /// Prior fill probability (fixed-point).
    pub prior_prob: u64,
    /// Current posterior (fixed-point).
    pub posterior_prob: u64,
    /// Fills counted, plus one.
    pub alpha: u64,
    /// Other outcomes counted, plus one.
    pub beta: u64,
    /// Whether estimates are given.
    pub is_active: bool,
    /// Set if the market regime changed.
    pub regime_shift: bool,
    /// Fills the cache line.
    pub padding: [u8; 14],
}

impl MakerFillProbability {
    /// Probabilities are at most one.
    pub open spec fn wf(&self) -> bool {
        self.prior_prob <= FIXED_SCALE && self.posterior_prob <= FIXED_SCALE
    }

    /// Estimator with even odds.
    pub fn new() -> (r: Self)
        ensures
            r.wf(),
            forall|i: int| 0 <= i < DEPTH_BINS ==> r.book_state.bid_depth@[i] == 0,
            forall|i: int| 0 <= i < DEPTH_BINS ==> r.book_state.ask_depth@[i] == 0,
            forall|i: int| 0 <= i < DEPTH_BINS ==> r.history.fill_rate_at_level@[i] == 0,
            r.book_state.best_bid == 0,
            r.book_state.best_ask == 0,
            r.book_state.spread_bps == 0,
            r.book_state.imbalance == 0,
            r.book_state.timestamp_cycles == 0,
            r.history.total_orders == 0,
            r.history.filled_orders == 0,
            r.history.partial_fills == 0,
            r.history.avg_fill_time_us == 0,
            r.depletion_sum == 0,
            r.depletion_count == 0,
            r.prior_prob == HALF,
            r.posterior_prob == HALF,
            r.alpha == 1,
            r.beta == 1,
            r.is_active,
            !r.regime_shift,
    {
        MakerFillProbability {
            book_state: BookState::default(),
            history: FillHistory::default(),
            depletion_sum: 0,
            depletion_count: 0,
            prior_prob: HALF,
            posterior_prob: HALF,
            alpha: 1,
            beta: 1,
            is_active: true,
            regime_shift: false,
            padding: [0u8;14],
        }
    }

    /// Take over a book snapshot at time `now`.
    pub fn update_book_state(&mut self, state: &BookState, now: u64)
        requires
            old(self).wf(),
        ensures
            final(self).wf(),
            final(self).book_state.bid_depth@ == state.bid_depth@,
            final(self).book_state.ask_depth@ == state.ask_depth@,
            final(self).book_state.best_bid == state.best_bid,
            final(self).book_state.best_ask == state.best_ask,
            final(self).book_state.spread_bps == state.spread_bps,
            final(self).book_state.imbalance == state.imbalance,
            final(self).book_state.timestamp_cycles == now,
            *final(self) == (MakerFillProbability {
                book_state: final(self).book_state,
                ..*old(self)
            }),
    {
        self.book_state = BookState {
            bid_depth: Box::new(*state.bid_depth),
            ask_depth: Box::new(*state.ask_depth),
            best_bid: state.best_bid,
            best_ask: state.best_ask,
            spread_bps: state.spread_bps,
            imbalance: state.imbalance,
            timestamp_cycles: now,
            padding: [0u8;8],
        };
    }

    /// Record a depletion event. An unknown level changes nothing.
    pub fn record_depletion(&mut self, volume: i64, level: usize)
        requires
            old(self).wf(),
            level < DEPTH_BINS ==> old(self).depletion_count < u64::MAX,
        ensures
            final(self).wf(),
            level >= DEPTH_BINS ==> *final(self) == *old(self),
            level < DEPTH_BINS ==> {
                let rates = old(self).history.fill_rate_at_level@;
                &&& final(self).depletion_sum == min(
                    old(self).depletion_sum + volume as u64,
                    u64::MAX as int,
                )
                &&& final(self).depletion_count == old(self).depletion_count + 1
                &&& final(self).history.fill_rate_at_level@ == rates.update(
                    level as int,
                    next_rate(rates[level as int] as int, volume as int) as i64,
                )
                &&& *final(self) == (MakerFillProbability {
                    depletion_sum: final(self).depletion_sum,
                    depletion_count: final(self).depletion_count,
                    history: FillHistory {
                        fill_rate_at_level: final(self).history.fill_rate_at_level,
                        ..old(self).history
                    },
                    ..*old(self)
                })
            },
    {
        if level >= DEPTH_BINS {
            return ;
        }
        self.depletion_sum = self.depletion_sum.saturating_add(volume as u64);
        self.depletion_count = self.depletion_count + 1;
        let old_rate: i64 = self.history.fill_rate_at_level[level];
        let weighted: i128 = old_rate as i128 * 90_000_000 + volume as i128 * 1_000_000_000_000;
        let rate: i128 = div_i128(weighted, FIXED_SCALE as i128);
        let bounded: i64 = if rate < 0 {
            0
        } else if rate > FIXED_SCALE as i128 {
            FIXED_SCALE
        } else {
            rate as i64
        };
        let mut rates = *self.history.fill_rate_at_level;
        rates[level] = bounded;
        self.history.fill_rate_at_level = Box::new(rates);
    }

    /// Part of the level that an order makes up (fixed-point).
    pub open spec fn depth_ratio(&self, level: int, order_size: int) -> i64 {
        let depth = self.book_state.bid_depth@[level] as int;
        tdiv(min(order_size, depth) * FIXED_SCALE, depth) as i64
    }

    /// The ratio, adjusted for the imbalance of the book.
    pub open spec fn adjusted(&self, level: int, order_size: int) -> i64 {
        tdiv(
            self.depth_ratio(level, order_size) * (FIXED_SCALE + tdiv(
                self.book_state.imbalance as int,
                100,
            )),
            FIXED_SCALE as int,
        ) as i64
    }

    /// Model: six parts of the adjusted ratio to four of the historical rate.
    pub open spec fn combined(&self, level: int, order_size: int) -> int {
        tdiv(
            self.adjusted(level, order_size) * 6 + self.history.fill_rate_at_level@[level] * 4,
            10,
        )
    }

    /// Fill probability at a level: seven parts of the model to three of the
    /// posterior, held between zero and one; zero without depth.
    pub open spec fn probability(&self, level: int, order_size: int) -> int {
        if self.book_state.bid_depth@[level] <= 0 {
            0
        } else {
            clamp(
                tdiv(self.combined(level, order_size) * 7 + self.posterior_prob * 3, 10) as i64
                    as int,
                0,
                FIXED_SCALE as int,
            )
        }
    }

    /// Fill probability of an order at a level (fixed-point); zero for an unknown
    /// level and while no estimates are given.
    pub fn calculate_probability(&self, price_level: usize, order_size: i64) -> (r: i64)
        requires
            self.wf(),
        ensures
            r == if price_level >= DEPTH_BINS || !self.is_active {
                0
            } else {
                self.probability(price_level as int, order_size as int)
            },
            0 <= r <= FIXED_SCALE,
    {
        if price_level >= DEPTH_BINS || !self.is_active {
            return 0;
        }
        let depth: i64 = self.book_state.bid_depth[price_level];
        if depth <= 0 {
            return 0;
        }
        let part: i64 = if order_size < depth {
            order_size
        } else {
            depth
        };
        let ratio: i64 = div_i128(part as i128 * FIXED_SCALE as i128, depth as i128) as i64;
        let factor: i64 = FIXED_SCALE + crate::fixed::div_i64(self.book_state.imbalance, 100);
        let adjusted: i64 = div_i128(crate::fixed::mul_wide(ratio, factor), FIXED_SCALE as i128) as i64;
        let hist: i64 = self.history.fill_rate_at_level[price_level];
        let combined: i128 = div_i128(adjusted as i128 * 6 + hist as i128 * 4, 10);
        proof {
            crate::fixed::lemma_tdiv_bound(adjusted * 6 + hist * 4, 10);
        }
        let blended: i64 = div_i128(combined * 7 + self.posterior_prob as i128 * 3, 10) as i64;
        crate::fixed::clamp_i64(blended, 0, FIXED_SCALE)
    }

    /// Update the posterior with an observed outcome.
    pub fn update_posterior(&mut self, was_filled: bool)
        requires
            old(self).wf(),
            old(self).alpha + old(self).beta < u64::MAX,
            old(self).history.total_orders < u64::MAX,
            was_filled ==> old(self).history.filled_orders < u64::MAX,
        ensures
            final(self).wf(),
            final(self).alpha == old(self).alpha + (if was_filled {
                1int
            } else {
                0
            }),
            final(self).beta == old(self).beta + (if was_filled {
                0int
            } else {
                1
            }),
            final(self).posterior_prob == posterior_mean(
                final(self).alpha as int,
                final(self).beta as int,
            ),
            *final(self) == (MakerFillProbability {
                alpha: final(self).alpha,
                beta: final(self).beta,
                posterior_prob: final(self).posterior_prob,
                history: FillHistory {
                    total_orders: (old(self).history.total_orders + 1) as u64,
                    filled_orders: (old(self).history.filled_orders + (if was_filled {
                        1int
                    } else {
                        0
                    })) as u64,
                    ..old(self).history
                },
                ..*old(self)
            }),
    {
        if was_filled {
            self.alpha = self.alpha + 1;
            self.history.filled_orders = self.history.filled_orders + 1;
        } else {
            self.beta = self.beta + 1;
        }
        let alpha: u64 = self.alpha;
        let total: u64 = self.alpha + self.beta;
        let scaled: u128 = alpha as u128 * FIXED_SCALE as u128;
        assert(scaled as int / total as int <= 100_000_000) by (nonlinear_arith)
            requires
                scaled == alpha * 100_000_000,
                0 <= alpha <= total,
                total > 0,
        ;
        self.posterior_prob = (scaled / total as u128) as u64;
        self.history.total_orders = self.history.total_orders + 1;
    }

    /// Detect a regime shift: the posterior is further from the prior than a
    /// threshold. The finding is noted.
    pub fn detect_regime_shift(&mut self, threshold: i64) -> (r: bool)
        requires
            old(self).wf(),
        ensures
            r == (abs(old(self).posterior_prob - old(self).prior_prob) > threshold),
            *final(self) == (MakerFillProbability { regime_shift: r, ..*old(self) }),
    {
        let diff: i64 = crate::fixed::abs_i64(self.posterior_prob as i64 - self.prior_prob as i64);
        let shifted = diff > threshold;
        self.regime_shift = shifted;
        shifted
    }

    /// Start over after a regime shift: the posterior becomes the prior.
    pub fn reset_regime(&mut self)
        requires
            old(self).wf(),
        ensures
            final(self).wf(),
            *final(self) == (MakerFillProbability {
                prior_prob: old(self).posterior_prob,
                alpha: 1,
                beta: 1,
                regime_shift: false,
                ..*old(self)
            }),
    {
        self.prior_prob = self.posterior_prob;
        self.alpha = 1;
        self.beta = 1;
        self.regime_shift = false;
    }

    /// Current posterior probability.
    pub fn get_posterior(&self) -> (r: i64)
        requires
            self.wf(),
        ensures
            r == self.posterior_prob,
    {
        self.posterior_prob as i64
    }

    /// Average depletion, as a signed number; zero without depletions.
    pub fn avg_depletion_rate(&self) -> (r: i64)
        ensures
            r == if self.depletion_count == 0 {
                0
            } else {
                (self.depletion_sum / self.depletion_count) as i64
            },
    {
        if self.depletion_count == 0 {
            return 0;
        }
        (self.depletion_sum / self.depletion_count) as i64
    }
}

/// A fill never lowers the posterior mean, and another outcome never raises it.
pub proof fn lemma_outcome_moves_posterior(alpha: int, beta: int)
    requires
        0 < alpha,
        0 < beta,
    ensures
        posterior_mean(alpha, beta) <= posterior_mean(alpha + 1, beta),
        posterior_mean(alpha, beta + 1) <= posterior_mean(alpha, beta),
        0 <= posterior_mean(alpha, beta) <= FIXED_SCALE,
{
    let n = alpha + beta;
    let a = alpha * FIXED_SCALE;
    let b = (alpha + 1) * FIXED_SCALE;
    assert(a / n <= b / (n + 1)) by (nonlinear_arith)
        requires
            a == alpha * 100_000_000,
            b == (alpha + 1) * 100_000_000,
            n == alpha + beta,
            0 < alpha,
            0 < beta,
    {
        let q = a / n;
        assert(q * n <= a);
        assert(q <= 100_000_000) by (nonlinear_arith)
            requires
                q * n <= a,
                a <= 100_000_000 * n,
                n > 0,
        ;
        assert(q * (n + 1) <= b);
        assert(q <= b / (n + 1)) by (nonlinear_arith)
            requires
                q * (n + 1) <= b,
                n + 1 > 0,
        ;
    }
    assert(a / (n + 1) <= a / n) by (nonlinear_arith)
        requires
            a >= 0,
            n > 0,
    ;
    assert(0 <= a / n <= 100_000_000) by (nonlinear_arith)
        requires
            0 <= a <= 100_000_000 * n,
            n > 0,
    ;
}

/// The posterior is the share of fills in all outcomes, in units of 10^-8 and rounded
/// down.
pub proof fn lemma_posterior_is_share(alpha: int, beta: int)
    requires
        0 < alpha,
        0 < beta,
    ensures
        posterior_mean(alpha, beta) * (alpha + beta) <= alpha * 100_000_000 < (posterior_mean(
            alpha,
            beta,
        ) + 1) * (alpha + beta),
{
    let n = alpha + beta;
    let q = (alpha * 100_000_000) / n;
    assert(q * n <= alpha * 100_000_000 < (q + 1) * n) by (nonlinear_arith)
        requires
            q == (alpha * 100_000_000) / n,
            n > 0,
    ;
}

/// A depletion moves the rate of a level: nine tenths of the rate so far and a tenth of
/// the volume in thousands, rounded down, as long as that is no more than one. More volume
/// never lowers the rate, and the rate stays between zero and one.
pub proof fn lemma_rate_moves(rate: int, volume: int, more: int)
    requires
        0 <= rate <= 100_000_000,
        0 <= volume <= more,
    ensures
        ({
            let next = next_rate(rate, volume);
            let exact = rate * 9 + volume * 100_000;
            &&& exact < 1_000_000_000 ==> 10 * next <= exact < 10 * next + 10
            &&& exact >= 1_000_000_000 ==> next == 100_000_000
            &&& next <= next_rate(rate, more)
            &&& 0 <= next <= 100_000_000
        }),
{
    let (x, y) = (
        rate * 90_000_000 + volume * 1_000_000_000_000,
        rate * 90_000_000 + more * 1_000_000_000_000,
    );
    lemma_tdiv_rounds(x, 100_000_000);
    lemma_tdiv_monotone(x, y, 100_000_000);
}

/// The parts of an estimate: the share of its level that the order makes up; that share
/// raised or lowered by a hundredth of the imbalance; six tenths of this and four tenths
/// of the historical rate; and seven tenths of that model and three tenths of the
/// posterior. Each is rounded down.
pub proof fn lemma_estimate_parts(m: MakerFillProbability, level: int, size: int)
    requires
        m.wf(),
        0 <= level < 32,
        m.book_state.bid_depth@[level] > 0,
        0 <= size,
        0 <= m.book_state.imbalance <= 10_000_000_000,
        0 <= m.history.fill_rate_at_level@[level] <= 100_000_000,
    ensures
        ({
            let depth = m.book_state.bid_depth@[level];
            let ratio = m.depth_ratio(level, size);
            let adjusted = m.adjusted(level, size);
            let combined = m.combined(level, size);
            let p = m.probability(level, size);
            let tilt = m.book_state.imbalance as int / 100;
            let model = 7 * combined + 3 * m.posterior_prob;
            &&& size >= depth ==> ratio == 100_000_000
            &&& size < depth ==> ratio * depth <= size * 100_000_000 < (ratio + 1) * depth
            &&& adjusted * 100_000_000 <= ratio * (100_000_000 + tilt) < (adjusted + 1)
                * 100_000_000
            &&& 10 * combined <= 6 * adjusted + 4 * m.history.fill_rate_at_level@[level] < 10
                * combined + 10
            &&& model < 1_000_000_000 ==> 10 * p <= model < 10 * p + 10
            &&& model >= 1_000_000_000 ==> p == 100_000_000
        }),
{
    let d = m.book_state.bid_depth@[level] as int;
    let part = min(size, d);
    lemma_tdiv_rounds(part * 100_000_000, d);
    let ratio = tdiv(part * 100_000_000, d);
    assert((ratio + 1) * d == ratio * d + d) by (nonlinear_arith);
    assert(0 <= ratio <= 100_000_000) by (nonlinear_arith)
        requires
            0 <= part * 100_000_000 - ratio * d < d,
            0 <= part <= d,
            d > 0,
    ;
    if part == d {
        assert(ratio == 100_000_000) by (nonlinear_arith)
            requires
                0 <= d * 100_000_000 - ratio * d < d,
                d > 0,
        ;
    }
    assert(m.depth_ratio(level, size) == ratio);
    let tilt = tdiv(m.book_state.imbalance as int, 100);
    assert(tilt == m.book_state.imbalance as int / 100);
    let x = ratio * (100_000_000 + tilt);
    assert(0 <= x <= 100_000_000 * 200_000_000) by (nonlinear_arith)
        requires
            x == ratio * (100_000_000 + tilt),
            0 <= ratio <= 100_000_000,
            0 <= tilt <= 100_000_000,
    ;
    lemma_tdiv_rounds(x, 100_000_000);
    let adjusted = tdiv(x, 100_000_000);
    assert(0 <= adjusted <= 200_000_000);
    let y = adjusted * 6 + m.history.fill_rate_at_level@[level] * 4;
    lemma_tdiv_rounds(y, 10);
    let z = tdiv(y, 10) * 7 + m.posterior_prob * 3;
    lemma_tdiv_rounds(z, 10);
}

/// Nothing is filled at a level without depth, and no probability is below zero or above
/// one.
pub proof fn lemma_probability_in_range(m: MakerFillProbability, level: int, order_size: int)
    ensures
        m.book_state.bid_depth@[level] <= 0 ==> m.probability(level, order_size) == 0,
        0 <= m.probability(level, order_size) <= 100_000_000,
{
}

} // verus!
