//! Volatility bands: Bollinger bands, average true range and Keltner channels.

use vstd::prelude::*;
use crate::fixed::{
    clamp, div_i128, div_i64, fits_i128, fits_i64, lemma_tdiv_bound, lemma_tdiv_rounds,
    lemma_tdiv_unique, max, min, mul_wide, sat_add, sat_sub, saturating_add_i64,
    saturating_sub_i64, tdiv,
};
use crate::indicators::momentum_osc::{candle_range, true_range};
use crate::indicators::streaming_ta::{FixedValue, StreamingEMA, MAX_WINDOW, SCALE};

verus! {

broadcast use vstd::array::group_array_axioms;

/// Maximum number of bands.
pub const MAX_BANDS: usize = 8;

/// Bandwidth below which the bands are squeezed.
pub const SQUEEZE_THRESHOLD: i64 = 5_000_000;

/// Middle of the bands.
pub const MIDPOINT: i64 = 50_000_000;

/// `r` is the square root of `n`, rounded down.
pub open spec fn is_root(n: int, r: int) -> bool {
    0 <= r && r * r <= n < (r + 1) * (r + 1)
}

/// Square root, rounded down.
pub open spec fn root(n: int) -> int {
    choose|r: int| is_root(n, r)
}

/// There is only one square root.
proof fn lemma_root(n: int, r: int)
    requires
        is_root(n, r),
    ensures
        root(n) == r,
{
    let s = root(n);
    assert(is_root(n, s));
    assert(s == r) by (nonlinear_arith)
        requires
            0 <= r,
            0 <= s,
            r * r <= n < (r + 1) * (r + 1),
            s * s <= n < (s + 1) * (s + 1),
    ;
}

/// A step of the approximation does not go below the square root.
proof fn lemma_newton(n: int, x: int, y: int)
    requires
        0 < n,
        0 < x,
        y == (x + n / x) / 2,
    ensures
        n < (y + 1) * (y + 1),
        0 <= y,
{
    let q = n / x;
    assert(0 <= q && n < x * (q + 1)) by (nonlinear_arith)
        requires
            0 < n,
            0 < x,
            q == n / x,
    ;
    let s = x + q + 1;
    assert(4 * (x * (q + 1)) <= s * s) by (nonlinear_arith)
        requires
            s == x + (q + 1),
    ;
    assert(s * s <= (2 * (y + 1)) * (2 * (y + 1))) by (nonlinear_arith)
        requires
            0 <= s <= 2 * (y + 1),
    ;
    assert((2 * (y + 1)) * (2 * (y + 1)) == 4 * ((y + 1) * (y + 1))) by (nonlinear_arith);
}

/// Square root, rounded down.
pub fn isqrt(n: u128) -> (r: u128)
    requires
        n < 0x8000_0000_0000_0000_0000_0000_0000_0000,
    ensures
        r == root(n as int),
        is_root(n as int, r as int),
{
    if n == 0 {
        proof {
            assert(0 * 0 <= 0int < (0int + 1) * (0int + 1)) by (nonlinear_arith);
            lemma_root(0, 0);
        }
        return 0;
    }
    let mut x: u128 = n;
    let mut y: u128 = (x + 1) / 2;
    assert(n < (n + 1) * (n + 1)) by (nonlinear_arith)
        requires
            n > 0,
    ;
    assert(n as int / n as int == 1) by (nonlinear_arith)
        requires
            n > 0,
    ;
    while y < x
        invariant
            0 < n < 0x8000_0000_0000_0000_0000_0000_0000_0000,
            0 < x <= n,
            n < (x + 1) * (x + 1),
            y == (x + n as int / x as int) / 2,
        decreases x,
    {
        proof {
            lemma_newton(n as int, x as int, y as int);
            if y == 0 {
                assert((0int + 1) * (0int + 1) == 1) by (nonlinear_arith);
                assert(false);
            }
            assert(0 <= n as int / y as int <= n) by (nonlinear_arith)
                requires
                    0 < y,
                    0 < n,
            ;
        }
        x = y;
        y = (x + n / x) / 2;
    }
    proof {
        let q = n as int / x as int;
        assert(x <= q);
        assert(x * x <= n) by (nonlinear_arith)
            requires
                0 < x <= q,
                q == n as int / x as int,
        ;
        lemma_root(n as int, x as int);
    }
    x
}

/// Sum of squares, held within the range of the type.
pub open spec fn sat_wide(x: int) -> int {
    clamp(x, i128::MIN as int, i128::MAX as int)
}

/// Bollinger bands: an average, and bands a multiple of the standard deviation away.
#[derive(Debug)]
pub struct VolatilityBollinger {
    /// Prices of the window, in a ring.
    pub price_buffer: [FixedValue; 512],
    /// Sum of the prices.
    pub sum: FixedValue,
    /// Sum of the squares of the prices.
    pub sum_sq: i128,
    /// Prices so far.
    pub idx: u64,
    /// Prices in the window.
    pub count: u32,
    /// Window.
    pub period: u32,
    /// Distance of the bands in standard deviations, scaled.
    pub std_mult: FixedValue,
    /// Upper band.
    pub upper_band: FixedValue,
    /// Middle band.
    pub middle_band: FixedValue,
    /// Lower band.
    pub lower_band: FixedValue,
    /// Distance of the bands in relation to the middle, scaled.
    pub bandwidth: FixedValue,
    /// Place of the price between the bands, scaled.
    pub percent_b: FixedValue,
    /// The bands were squeezed.
    pub squeeze_detected: bool,
}

impl VolatilityBollinger {
    /// The window is within bounds.
    pub open spec fn wf(&self) -> bool {
        &&& self.period <= MAX_WINDOW
        &&& self.count <= self.period
    }

    /// Bands over a window, a multiple of the standard deviation away.
    pub fn new(period: u32, std_mult: FixedValue) -> (r: Self)
        requires
            period <= MAX_WINDOW,
        ensures
            r.wf(),
            forall|i: int| 0 <= i < MAX_WINDOW ==> r.price_buffer@[i] == 0,
            r.sum == 0,
            r.sum_sq == 0,
            r.idx == 0,
            r.count == 0,
            r.period == period,
            r.std_mult == std_mult,
            r.upper_band == 0,
            r.middle_band == 0,
            r.lower_band == 0,
            r.bandwidth == 0,
            r.percent_b == MIDPOINT,
            !r.squeeze_detected,
    {
        VolatilityBollinger {
            price_buffer: [0i64;512],
            sum: 0,
            sum_sq: 0,
            idx: 0,
            count: 0,
            period,
            std_mult,
            upper_band: 0,
            middle_band: 0,
            lower_band: 0,
            bandwidth: 0,
            percent_b: MIDPOINT,
            squeeze_detected: false,
        }
    }

    /// Place of the next price.
    pub open spec fn place(&self) -> int {
        self.idx as int % self.period as int
    }

    /// Price that leaves the window: zero if the window is not full.
    pub open spec fn oldest(&self) -> int {
        if self.count >= self.period {
            self.price_buffer@[self.place()] as int
        } else {
            0
        }
    }

    /// Prices in the window after the next.
    pub open spec fn next_count(&self) -> int {
        min(self.count + 1, self.period as int)
    }

    /// Sum after the next price.
    pub open spec fn next_sum(&self, price: int) -> int {
        sat_add(sat_sub(self.sum as int, self.oldest()), price)
    }

    /// Sum of squares after the next price.
    pub open spec fn next_sum_sq(&self, price: int) -> int {
        sat_wide(sat_wide(self.sum_sq - self.oldest() * self.oldest()) + price * price)
    }

    /// Middle band after the next price: the mean.
    pub open spec fn next_middle(&self, price: int) -> int {
        tdiv(self.next_sum(price), self.next_count())
    }

    /// Mean of the square of the sum after the next price.
    pub open spec fn next_mean_sq(&self, price: int) -> int {
        (self.next_sum(price) * self.next_sum(price)) / self.next_count()
    }

    /// Variance after the next price: `E[X^2] - E[X]^2`.
    pub open spec fn next_variance(&self, price: int) -> int {
        tdiv(self.next_sum_sq(price) - self.next_mean_sq(price), self.next_count())
    }

    /// Standard deviation after the next price.
    pub open spec fn next_deviation(&self, price: int) -> int {
        if self.next_variance(price) > 0 {
            root(self.next_variance(price))
        } else {
            0
        }
    }

    /// Distance of the bands from the middle after the next price.
    pub open spec fn next_offset(&self, price: int) -> int {
        tdiv(self.next_deviation(price) * self.std_mult, SCALE as int)
    }

    /// Bandwidth after the next price. It stays where the middle is not positive.
    pub open spec fn next_bandwidth(&self, price: int) -> int {
        if self.next_middle(price) > 0 {
            tdiv(2 * self.next_offset(price) * SCALE, self.next_middle(price))
        } else {
            self.bandwidth as int
        }
    }

    /// Place between the bands after the next price. It stays where the bands do not
    /// span a range.
    pub open spec fn next_percent_b(&self, price: int) -> int {
        if self.next_offset(price) > 0 {
            tdiv(
                (price - (self.next_middle(price) - self.next_offset(price))) * SCALE,
                2 * self.next_offset(price),
            )
        } else {
            self.percent_b as int
        }
    }

    /// A price can be taken: all values fit.
    pub open spec fn accepts(&self, price: int) -> bool {
        &&& self.period > 0
        &&& fits_i128(self.next_sum_sq(price) - self.next_mean_sq(price))
        &&& fits_i64(self.next_deviation(price))
        &&& fits_i64(self.next_offset(price))
        &&& fits_i64(self.next_middle(price) + self.next_offset(price))
        &&& fits_i64(self.next_middle(price) - self.next_offset(price))
        &&& fits_i64(self.next_bandwidth(price))
        &&& fits_i64(self.next_percent_b(price))
    }

    /// `post` is the state after a price.
    pub open spec fn stepped(pre: Self, price: i64, post: Self) -> bool {
        let p = price as int;
        &&& post.price_buffer@ == pre.price_buffer@.update(pre.place(), price)
        &&& post == (VolatilityBollinger {
            price_buffer: post.price_buffer,
            sum: pre.next_sum(p) as i64,
            sum_sq: pre.next_sum_sq(p) as i128,
            idx: pre.idx.wrapping_add(1),
            count: pre.next_count() as u32,
            upper_band: (pre.next_middle(p) + pre.next_offset(p)) as i64,
            middle_band: pre.next_middle(p) as i64,
            lower_band: (pre.next_middle(p) - pre.next_offset(p)) as i64,
            bandwidth: pre.next_bandwidth(p) as i64,
            percent_b: pre.next_percent_b(p) as i64,
            squeeze_detected: pre.squeeze_detected || pre.next_bandwidth(p) < SQUEEZE_THRESHOLD,
            ..pre
        })
    }

    /// Take a price into the window, and update its sums.
    fn take(&mut self, price: FixedValue)
        requires
            old(self).wf(),
            old(self).period > 0,
        ensures
            final(self).wf(),
            final(self).price_buffer@ == old(self).price_buffer@.update(old(self).place(), price),
            *final(self) == (VolatilityBollinger {
                price_buffer: final(self).price_buffer,
                sum: old(self).next_sum(price as int) as i64,
                sum_sq: old(self).next_sum_sq(price as int) as i128,
                idx: old(self).idx.wrapping_add(1),
                count: old(self).next_count() as u32,
                ..*old(self)
            }),
    {
        let i: usize = (self.idx % self.period as u64) as usize;
        proof {
            vstd::arithmetic::div_mod::lemma_mod_bound(self.idx as int, self.period as int);
        }
        let mut oldest: i64 = 0;
        if self.count >= self.period {
            oldest = self.price_buffer[i];
        } else {
            self.count = self.count + 1;
        }
        self.sum = saturating_add_i64(saturating_sub_i64(self.sum, oldest), price);
        self.sum_sq = add_wide(sub_wide(self.sum_sq, square(oldest)), square(price));
        self.price_buffer[i] = price;
        self.idx = self.idx.wrapping_add(1);
    }

    /// Take a price into the bands. Gives the upper, the middle and the lower one.
    #[verifier::rlimit(40)]
    pub fn update(&mut self, price: FixedValue) -> (r: (FixedValue, FixedValue, FixedValue))
        requires
            old(self).wf(),
            old(self).accepts(price as int),
        ensures
            final(self).wf(),
            Self::stepped(*old(self), price, *final(self)),
            r == (final(self).upper_band, final(self).middle_band, final(self).lower_band),
    {
        let ghost p = price as int;
        self.take(price);
        let n: i128 = self.count as i128;
        self.middle_band = div_i64(self.sum, self.count as i64);
        proof {
            lemma_square(self.sum as int);
            lemma_tdiv_bound(self.sum * self.sum, n as int);
            lemma_tdiv_bound(old(self).next_sum_sq(p) - old(self).next_mean_sq(p), n as int);
        }
        let mean_sq: i128 = mul_wide(self.sum, self.sum) / n;
        assert(mean_sq == old(self).next_mean_sq(p));
        let variance: i128 = div_i128(self.sum_sq - mean_sq, n);
        assert(variance == old(self).next_variance(p));
        let std_dev: i64 = if variance > 0 {
            isqrt(variance as u128) as i64
        } else {
            0
        };
        assert(std_dev == old(self).next_deviation(p));
        let offset: i64 = div_i128(mul_wide(std_dev, self.std_mult), SCALE as i128) as i64;
        assert(offset == old(self).next_offset(p));
        self.upper_band = self.middle_band + offset;
        self.lower_band = self.middle_band - offset;
        let range: i128 = self.upper_band as i128 - self.lower_band as i128;
        if self.middle_band > 0 {
            proof {
                lemma_tdiv_bound(range * SCALE, self.middle_band as int);
            }
            self.bandwidth = div_i128(range * SCALE as i128, self.middle_band as i128) as i64;
        }
        if range > 0 {
            let above: i128 = price as i128 - self.lower_band as i128;
            self.percent_b = div_i128(above * SCALE as i128, range) as i64;
        }
        if self.bandwidth < SQUEEZE_THRESHOLD {
            self.squeeze_detected = true;
        }
        (self.upper_band, self.middle_band, self.lower_band)
    }

    /// Upper, middle and lower band.
    pub fn get(&self) -> (r: (FixedValue, FixedValue, FixedValue))
        ensures
            r == (self.upper_band, self.middle_band, self.lower_band),
    {
        (self.upper_band, self.middle_band, self.lower_band)
    }

    /// Check if the bands were squeezed, and forget it.
    pub fn check_squeeze(&mut self) -> (r: bool)
        ensures
            r == old(self).squeeze_detected,
            *final(self) == (VolatilityBollinger { squeeze_detected: false, ..*old(self) }),
    {
        let detected = self.squeeze_detected;
        if detected {
            self.squeeze_detected = false;
        }
        detected
    }

    /// Bandwidth.
    pub fn get_bandwidth(&self) -> (r: FixedValue)
        ensures
            r == self.bandwidth,
    {
        self.bandwidth
    }

    /// Place of the price between the bands.
    pub fn get_percent_b(&self) -> (r: FixedValue)
        ensures
            r == self.percent_b,
    {
        self.percent_b
    }
}

/// A square is not negative.
proof fn lemma_square(x: int)
    ensures
        0 <= x * x,
{
    assert(0 <= x * x) by (nonlinear_arith);
}

/// Square of a price.
fn square(x: i64) -> (r: i128)
    ensures
        r == x * x,
        0 <= r,
{
    proof {
        lemma_square(x as int);
    }
    mul_wide(x, x)
}

/// Sum with a nonnegative number, held within the range of the type.
fn add_wide(a: i128, b: i128) -> (r: i128)
    requires
        0 <= b,
    ensures
        r == sat_wide(a + b),
{
    if a > i128::MAX - b {
        i128::MAX
    } else {
        a + b
    }
}

/// Difference from a nonnegative number, held within the range of the type.
fn sub_wide(a: i128, b: i128) -> (r: i128)
    requires
        0 <= b,
    ensures
        r == sat_wide(a - b),
{
    if a < i128::MIN + b {
        i128::MIN
    } else {
        a - b
    }
}

/// The middle band lies between the others where the distance is not negative, and
/// the bands stand at equal distance from it.
pub proof fn lemma_bands_around_middle(pre: VolatilityBollinger, price: i64, post: VolatilityBollinger)
    requires
        pre.wf(),
        pre.accepts(price as int),
        VolatilityBollinger::stepped(pre, price, post),
        0 <= pre.std_mult,
    ensures
        post.lower_band <= post.middle_band <= post.upper_band,
        post.upper_band - post.middle_band == post.middle_band - post.lower_band,
{
    let p = price as int;
    let v = pre.next_variance(p);
    if v > 0 {
        lemma_root_exists(v as nat);
    }
    let d = pre.next_deviation(p);
    assert(0 <= d * pre.std_mult) by (nonlinear_arith)
        requires
            0 <= d,
            0 <= pre.std_mult,
    ;
    let n = pre.next_count();
    assert(n > 0);
    lemma_tdiv_bound(pre.next_sum(p), n);
}

/// Every number has a square root.
proof fn lemma_root_exists(n: nat)
    ensures
        is_root(n as int, root(n as int)),
        0 <= root(n as int),
    decreases n,
{
    if n == 0 {
        assert(0 * 0 <= 0int < (0int + 1) * (0int + 1)) by (nonlinear_arith);
        assert(is_root(0, 0));
    } else {
        lemma_root_exists((n - 1) as nat);
        let r = root(n - 1);
        assert((r + 1) * (r + 1) < (r + 2) * (r + 2)) by (nonlinear_arith)
            requires
                0 <= r,
        ;
        if n < (r + 1) * (r + 1) {
            assert(is_root(n as int, r));
        } else {
            assert(is_root(n as int, r + 1));
        }
    }
}

/// Average true range.
#[derive(Debug, Clone, Copy)]
pub struct VolatilityATR {
    /// Smoothed range.
    pub atr_value: FixedValue,
    /// Last close.
    pub prev_close: FixedValue,
    /// Last high.
    pub prev_high: FixedValue,
    /// Last low.
    pub prev_low: FixedValue,
    /// Weight of a new range, scaled.
    pub multiplier: FixedValue,
    /// A candle was seen.
    pub initialized: bool,
    /// Range in relation to the price, scaled.
    pub atr_percent: FixedValue,
    /// Fills the cache line.
    pub padding: [u8; 15],
}

impl VolatilityATR {
    /// Range over a period.
    pub open spec fn spec_new(period: u32) -> Self {
        VolatilityATR {
            atr_value: 0,
            prev_close: 0,
            prev_high: 0,
            prev_low: 0,
            multiplier: (100_000_000int / period as int) as i64,
            initialized: false,
            atr_percent: 0,
            padding: vstd::array::spec_array_fill_for_copy_type::<u8, 15>(0u8),
        }
    }

    /// Range over a period.
    pub fn new(period: u32) -> (r: Self)
        requires
            period > 0,
        ensures
            r == Self::spec_new(period),
            r.smooths(),
    {
        let multiplier: i64 = SCALE / period as i64;
        assert(0 <= multiplier <= 100_000_000) by (nonlinear_arith)
            requires
                period > 0,
                multiplier == 100_000_000int / period as int,
        ;
        VolatilityATR {
            atr_value: 0,
            prev_close: 0,
            prev_high: 0,
            prev_low: 0,
            multiplier,
            initialized: false,
            atr_percent: 0,
            padding: [0u8;15],
        }
    }

    /// The weight of a new range lies between zero and one.
    pub open spec fn smooths(&self) -> bool {
        0 <= self.multiplier <= SCALE
    }

    /// Smoothed range after a candle: it moves toward the range of the candle. The
    /// first is the range from low to high.
    pub open spec fn next(&self, high: int, low: int) -> int {
        if self.initialized {
            self.atr_value + tdiv(
                (true_range(self.prev_close as int, high, low) - self.atr_value) * self.multiplier,
                SCALE as int,
            )
        } else {
            high - low
        }
    }

    /// Range in relation to the price after a candle. The first candle leaves it, and
    /// so does a close that is not positive.
    pub open spec fn next_percent(&self, high: int, low: int, close: int) -> int {
        if self.initialized && close > 0 {
            tdiv(self.next(high, low) * SCALE, close)
        } else {
            self.atr_percent as int
        }
    }

    /// A candle can be taken: all values fit.
    pub open spec fn accepts(&self, high: int, low: int, close: int) -> bool {
        &&& fits_i64(self.next(high, low))
        &&& fits_i64(self.next_percent(high, low, close))
        &&& self.initialized ==> fits_i64(
            true_range(self.prev_close as int, high, low) - self.atr_value,
        )
    }

    /// Range after a candle.
    pub open spec fn updated(self, high: i64, low: i64, close: i64) -> Self {
        VolatilityATR {
            atr_value: self.next(high as int, low as int) as i64,
            atr_percent: self.next_percent(high as int, low as int, close as int) as i64,
            prev_close: close,
            prev_high: high,
            prev_low: low,
            initialized: true,
            ..self
        }
    }

    /// Take a candle into the range. Gives the smoothed range.
    pub fn update(&mut self, high: FixedValue, low: FixedValue, close: FixedValue) -> (r: FixedValue)
        requires
            old(self).accepts(high as int, low as int, close as int),
        ensures
            *final(self) == old(self).updated(high, low, close),
            r == final(self).atr_value,
    {
        if !self.initialized {
            self.atr_value = high - low;
            self.prev_close = close;
            self.prev_high = high;
            self.prev_low = low;
            self.initialized = true;
            return self.atr_value;
        }
        let diff: i64 = (candle_range(self.prev_close, high, low) - self.atr_value as i128) as i64;
        proof {
            lemma_tdiv_bound(diff * self.multiplier, SCALE as int);
        }
        let step: i128 = div_i128(mul_wide(diff, self.multiplier), SCALE as i128);
        self.atr_value = (self.atr_value as i128 + step) as i64;
        if close > 0 {
            self.atr_percent = div_i128(mul_wide(self.atr_value, SCALE), close as i128) as i64;
        }
        self.prev_close = close;
        self.prev_high = high;
        self.prev_low = low;
        self.atr_value
    }

    /// Smoothed range.
    pub fn get(&self) -> (r: FixedValue)
        ensures
            r == self.atr_value,
    {
        self.atr_value
    }

    /// Range in relation to the price.
    pub fn get_percent(&self) -> (r: FixedValue)
        ensures
            r == self.atr_percent,
    {
        self.atr_percent
    }
}

/// The smoothed range lies between its last value and the range of the candle.
pub proof fn lemma_range_between(atr: VolatilityATR, high: int, low: int)
    requires
        atr.smooths(),
        atr.initialized,
    ensures
        ({
            let tr = true_range(atr.prev_close as int, high, low);
            min(tr, atr.atr_value as int) <= atr.next(high, low) <= max(tr, atr.atr_value as int)
        }),
{
    let d = true_range(atr.prev_close as int, high, low) - atr.atr_value;
    let m = atr.multiplier as int;
    if d >= 0 {
        assert(0 <= d * m <= d * 100_000_000) by (nonlinear_arith)
            requires
                0 <= d,
                0 <= m <= 100_000_000,
        ;
    } else {
        assert(0 <= -(d * m) <= -d * 100_000_000) by (nonlinear_arith)
            requires
                d < 0,
                0 <= m <= 100_000_000,
        ;
    }
}

/// Keltner channels: an average, and channels a multiple of the range away.
#[derive(Debug)]
pub struct VolatilityKeltner {
    /// Average of the close.
    pub ema: StreamingEMA,
    /// Range.
    pub atr: VolatilityATR,
    /// Distance of the channels in ranges, scaled.
    pub atr_mult: FixedValue,
    /// Upper channel.
    pub upper_channel: FixedValue,
    /// Center line.
    pub center_line: FixedValue,
    /// Lower channel.
    pub lower_channel: FixedValue,
    /// Distance of the channels.
    pub channel_width: FixedValue,
}

impl VolatilityKeltner {
    /// Channels over the given periods, a multiple of the range away.
    pub fn new(ema_period: u32, atr_period: u32, atr_mult: FixedValue) -> (r: Self)
        requires
            atr_period > 0,
        ensures
            r.ema.multiplier == 200_000_000int / (ema_period + 1),
            r.ema.value == 0 && !r.ema.initialized,
            r.atr == VolatilityATR::spec_new(atr_period),
            r.atr_mult == atr_mult,
            r.upper_channel == 0,
            r.center_line == 0,
            r.lower_channel == 0,
            r.channel_width == 0,
            ema_period > 0 ==> r.ema.smooths(),
            r.atr.smooths(),
    {
        VolatilityKeltner {
            ema: StreamingEMA::new(ema_period),
            atr: VolatilityATR::new(atr_period),
            atr_mult,
            upper_channel: 0,
            center_line: 0,
            lower_channel: 0,
            channel_width: 0,
        }
    }

    /// Distance of the channels from the center after a candle.
    pub open spec fn next_offset(&self, high: int, low: int) -> int {
        tdiv(self.atr.next(high, low) * self.atr_mult, SCALE as int)
    }

    /// A candle can be taken: all values fit.
    pub open spec fn accepts(&self, high: int, low: int, close: int) -> bool {
        let center = self.ema.next(close);
        let offset = self.next_offset(high, low);
        &&& fits_i64(center)
        &&& fits_i64(SCALE - self.ema.multiplier)
        &&& self.atr.accepts(high, low, close)
        &&& fits_i64(offset)
        &&& fits_i64(center + offset)
        &&& fits_i64(center - offset)
        &&& fits_i64(2 * offset)
    }

    /// Channels after a candle.
    pub open spec fn updated(self, high: i64, low: i64, close: i64) -> Self {
        let center = self.ema.next(close as int);
        let offset = self.next_offset(high as int, low as int);
        VolatilityKeltner {
            ema: self.ema.updated(close as int),
            atr: self.atr.updated(high, low, close),
            upper_channel: (center + offset) as i64,
            center_line: center as i64,
            lower_channel: (center - offset) as i64,
            channel_width: (2 * offset) as i64,
            ..self
        }
    }

    /// Take a candle into the channels. Gives the upper channel, the center line and
    /// the lower channel.
    pub fn update(&mut self, high: FixedValue, low: FixedValue, close: FixedValue) -> (r: (
        FixedValue,
        FixedValue,
        FixedValue,
    ))
        requires
            old(self).accepts(high as int, low as int, close as int),
        ensures
            *final(self) == old(self).updated(high, low, close),
            r == (final(self).upper_channel, final(self).center_line, final(self).lower_channel),
    {
        self.center_line = self.ema.update(close);
        let atr: i64 = self.atr.update(high, low, close);
        let offset: i64 = div_i128(mul_wide(atr, self.atr_mult), SCALE as i128) as i64;
        self.upper_channel = self.center_line + offset;
        self.lower_channel = self.center_line - offset;
        self.channel_width = offset * 2;
        (self.upper_channel, self.center_line, self.lower_channel)
    }

    /// Upper channel, center line and lower channel.
    pub fn get(&self) -> (r: (FixedValue, FixedValue, FixedValue))
        ensures
            r == (self.upper_channel, self.center_line, self.lower_channel),
    {
        (self.upper_channel, self.center_line, self.lower_channel)
    }
}

/// All volatility indicators of one instrument.
#[derive(Debug)]
pub struct VolatilityBundle {
    /// Bollinger bands.
    pub bollinger: VolatilityBollinger,
    /// Average true range.
    pub atr: VolatilityATR,
    /// Keltner channels.
    pub keltner: VolatilityKeltner,
}

impl VolatilityBundle {
    /// The window is in order.
    pub open spec fn wf(&self) -> bool {
        self.bollinger.wf()
    }

    /// Indicators over the given periods.
    pub fn new(bb_period: u32, bb_mult: FixedValue, atr_period: u32, kc_mult: FixedValue) -> (r: Self)
        requires
            bb_period <= MAX_WINDOW,
            atr_period > 0,
        ensures
            r.wf(),
            r.bollinger.period == bb_period,
            r.bollinger.std_mult == bb_mult,
            forall|i: int| 0 <= i < MAX_WINDOW ==> r.bollinger.price_buffer@[i] == 0,
            r.bollinger.count == 0 && r.bollinger.sum == 0 && r.bollinger.sum_sq == 0,
            r.bollinger.idx == 0,
            r.bollinger.upper_band == 0,
            r.bollinger.middle_band == 0,
            r.bollinger.lower_band == 0,
            r.bollinger.bandwidth == 0,
            r.bollinger.percent_b == MIDPOINT,
            !r.bollinger.squeeze_detected,
            r.atr == VolatilityATR::spec_new(atr_period),
            r.keltner.ema.multiplier == 200_000_000int / (atr_period + 1),
            r.keltner.ema.value == 0 && !r.keltner.ema.initialized,
            r.keltner.atr == VolatilityATR::spec_new(atr_period),
            r.keltner.atr_mult == kc_mult,
            r.keltner.upper_channel == 0,
            r.keltner.center_line == 0,
            r.keltner.lower_channel == 0,
            r.keltner.channel_width == 0,
    {
        VolatilityBundle {
            bollinger: VolatilityBollinger::new(bb_period, bb_mult),
            atr: VolatilityATR::new(atr_period),
            keltner: VolatilityKeltner::new(atr_period, atr_period, kc_mult),
        }
    }

    /// Take a candle into all indicators.
    pub fn update(&mut self, high: FixedValue, low: FixedValue, close: FixedValue)
        requires
            old(self).wf(),
            old(self).bollinger.accepts(close as int),
            old(self).atr.accepts(high as int, low as int, close as int),
            old(self).keltner.accepts(high as int, low as int, close as int),
        ensures
            final(self).wf(),
            VolatilityBollinger::stepped(old(self).bollinger, close, final(self).bollinger),
            final(self).atr == old(self).atr.updated(high, low, close),
            final(self).keltner == old(self).keltner.updated(high, low, close),
    {
        let bands = self.bollinger.update(close);
        let range: i64 = self.atr.update(high, low, close);
        let channels = self.keltner.update(high, low, close);
    }
}

/// A root is the largest number whose square is no more.
pub proof fn lemma_root_value(n: nat)
    ensures
        0 <= root(n as int),
        root(n as int) * root(n as int) <= n,
        n < (root(n as int) + 1) * (root(n as int) + 1),
{
    lemma_root_exists(n);
}

/// The middle band is the average of the window; the variance is the average of the
/// squares less the square of the sum over the square of the number; the bands lie the
/// given number of deviations above and below. Each step is rounded down.
pub proof fn lemma_band_values(b: VolatilityBollinger, price: int)
    requires
        b.wf(),
        b.accepts(price),
        b.std_mult >= 0,
        b.next_sum(price) >= 0,
        b.next_sum_sq(price) >= b.next_mean_sq(price),
    ensures
        ({
            let n = b.next_count();
            let s = b.next_sum(price);
            let (mid, ms) = (b.next_middle(price), b.next_mean_sq(price));
            let (v, d, o) = (
                b.next_variance(price),
                b.next_deviation(price),
                b.next_offset(price),
            );
            &&& mid * n <= s < (mid + 1) * n
            &&& ms * n <= s * s < (ms + 1) * n
            &&& v * n <= b.next_sum_sq(price) - ms < (v + 1) * n
            &&& d * d <= v < (d + 1) * (d + 1)
            &&& o * 100_000_000 <= d * b.std_mult < (o + 1) * 100_000_000
        }),
{
    let n = b.next_count();
    let s = b.next_sum(price);
    lemma_tdiv_rounds(s, n);
    let mid = tdiv(s, n);
    let x = s * s;
    let ms = x / n;
    assert(ms * n <= x < (ms + 1) * n) by (nonlinear_arith)
        requires
            ms == x / n,
            n > 0,
    ;
    let y = b.next_sum_sq(price) - ms;
    lemma_tdiv_rounds(y, n);
    let v = tdiv(y, n);
    assert((mid + 1) * n == mid * n + n && (v + 1) * n == v * n + n) by (nonlinear_arith);
    assert(v >= 0) by (nonlinear_arith)
        requires
            0 <= y < v * n + n,
            n > 0,
    ;
    lemma_root_exists(v as nat);
    let d = b.next_deviation(price);
    if v == 0 {
        assert(d == 0);
        assert(d * d == 0 && (d + 1) * (d + 1) == 1) by (nonlinear_arith)
            requires
                d == 0,
        ;
    }
    assert(d * d <= v < (d + 1) * (d + 1));
    assert(mid * n <= s < (mid + 1) * n);
    assert(v * n <= y < (v + 1) * n);
    let z = d * b.std_mult;
    assert(z >= 0) by (nonlinear_arith)
        requires
            z == d * b.std_mult,
            d >= 0,
            b.std_mult >= 0,
    ;
    lemma_tdiv_rounds(z, 100_000_000);
}

/// The sums go with the window: the new price comes in and the oldest one, once the
/// window is full, goes out.
pub proof fn lemma_sums_follow_window(b: VolatilityBollinger, price: int)
    requires
        b.wf(),
        b.period > 0,
        fits_i64(b.sum - b.oldest()),
        fits_i64(b.sum - b.oldest() + price),
        fits_i128(b.sum_sq - b.oldest() * b.oldest()),
        fits_i128(b.sum_sq - b.oldest() * b.oldest() + price * price),
    ensures
        b.next_sum(price) == b.sum - b.oldest() + price,
        b.next_sum_sq(price) == b.sum_sq - b.oldest() * b.oldest() + price * price,
        b.count < b.period ==> b.oldest() == 0 && b.next_count() == b.count + 1,
        b.count == b.period ==> b.oldest() == b.price_buffer@[b.idx as int % b.period as int]
            && b.next_count() == b.period,
{
}

/// The bandwidth is the distance of the bands in units of the middle, and the place of a
/// price is zero at the lower band, one at the upper band and one half in the middle.
pub proof fn lemma_place_in_band(b: VolatilityBollinger, price: int)
    requires
        b.next_offset(price) > 0,
    ensures
        ({
            let (mid, o) = (b.next_middle(price), b.next_offset(price));
            let (w, p) = (b.next_bandwidth(price), b.next_percent_b(price));
            &&& mid > 0 ==> w * mid <= 2 * o * 100_000_000 < (w + 1) * mid
            &&& price == mid - o ==> p == 0
            &&& price == mid + o ==> p == 100_000_000
            &&& price == mid ==> p == 50_000_000
            &&& price >= mid - o ==> p * (2 * o) <= (price - mid + o) * 100_000_000 < (p + 1) * (2
                * o)
        }),
{
    let (mid, o) = (b.next_middle(price), b.next_offset(price));
    if mid > 0 {
        lemma_tdiv_rounds(2 * o * 100_000_000, mid);
        let w = tdiv(2 * o * 100_000_000, mid);
        assert((w + 1) * mid == w * mid + mid) by (nonlinear_arith);
    }
    let d = 2 * o;
    let x = (price - (mid - o)) * 100_000_000;
    lemma_tdiv_rounds(x, d);
    let p = tdiv(x, d);
    assert((p + 1) * d == p * d + d) by (nonlinear_arith);
    assert(0 * d == 0);
    if price == mid - o {
        lemma_tdiv_unique(x, d, 0);
    }
    if price == mid + o {
        lemma_tdiv_unique(x, d, 100_000_000);
    }
    if price == mid {
        lemma_tdiv_unique(x, d, 50_000_000);
    }
}

/// The average range moves toward the range of each candle by the multiplier's share of
/// the distance, rounded toward where it was; the first candle gives its own range.
pub proof fn lemma_range_moves(atr: VolatilityATR, high: int, low: int)
    ensures
        !atr.initialized ==> atr.next(high, low) == high - low,
        atr.initialized ==> {
            let distance = true_range(atr.prev_close as int, high, low) - atr.atr_value;
            let moved = atr.next(high, low) - atr.atr_value;
            let rest = distance * atr.multiplier - moved * 100_000_000;
            &&& distance * atr.multiplier >= 0 ==> 0 <= rest < 100_000_000
            &&& distance * atr.multiplier <= 0 ==> -100_000_000 < rest <= 0
        },
{
    let distance = true_range(atr.prev_close as int, high, low) - atr.atr_value;
    lemma_tdiv_rounds(distance * atr.multiplier, 100_000_000);
}

/// The range in relation to the close, and the multiplier as one over the period.
pub proof fn lemma_range_percent(atr: VolatilityATR, high: int, low: int, close: int, period: u32)
    requires
        atr.initialized,
        close > 0,
        atr.next(high, low) >= 0,
        period > 0,
    ensures
        ({
            let p = atr.next_percent(high, low, close);
            p * close <= atr.next(high, low) * 100_000_000 < (p + 1) * close
        }),
        ({
            let m = VolatilityATR::spec_new(period).multiplier;
            m * period <= 100_000_000 < (m + 1) * period
        }),
{
    let x = atr.next(high, low) * 100_000_000;
    lemma_tdiv_rounds(x, close);
    let p = tdiv(x, close);
    assert((p + 1) * close == p * close + close) by (nonlinear_arith);
    let n = period as int;
    let m = 100_000_000int / n;
    assert(0 <= m <= 100_000_000 && m * n <= 100_000_000 < (m + 1) * n) by (nonlinear_arith)
        requires
            m == 100_000_000int / n,
            n > 0,
    ;
}

/// The channel lies around the average close, the given number of ranges above and below.
pub proof fn lemma_channel(k: VolatilityKeltner, high: i64, low: i64, close: i64)
    requires
        k.accepts(high as int, low as int, close as int),
        k.atr.next(high as int, low as int) >= 0,
        k.atr_mult >= 0,
    ensures
        ({
            let after = k.updated(high, low, close);
            let o = after.upper_channel - after.center_line;
            &&& after.center_line == k.ema.next(close as int)
            &&& after.center_line - after.lower_channel == o
            &&& after.channel_width == after.upper_channel - after.lower_channel
            &&& o * 100_000_000 <= after.atr.atr_value * k.atr_mult < (o + 1) * 100_000_000
        }),
{
    let x = k.atr.next(high as int, low as int) * k.atr_mult;
    assert(x >= 0) by (nonlinear_arith)
        requires
            x == k.atr.next(high as int, low as int) * k.atr_mult,
            k.atr.next(high as int, low as int) >= 0,
            k.atr_mult >= 0,
    ;
    lemma_tdiv_rounds(x, 100_000_000);
}

} // verus!
