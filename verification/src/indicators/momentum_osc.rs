//! Momentum oscillators: relative strength, convergence of averages, and
//! directional movement.

use vstd::prelude::*;
use crate::fixed::{
    abs, div_i128, fits_i64, lemma_tdiv_bound, lemma_tdiv_monotone, lemma_tdiv_rounds,
    lemma_tdiv_unique, max, min, mul_wide, seq_sum, tdiv,
};
use crate::indicators::streaming_ta::{FixedValue, StreamingEMA, SCALE};

verus! {

broadcast use vstd::array::group_array_axioms;

/// Maximum lookback of the directional index.
pub const MAX_ADX_LOOKBACK: usize = 100;

/// Middle of the strength scale.
pub const MIDPOINT: i64 = 50_000_000;

/// Strength from which on an instrument is overbought.
pub const OVERBOUGHT: i64 = 70_000_000;

/// Strength up to which an instrument is oversold.
pub const OVERSOLD: i64 = 30_000_000;

/// Relative strength index.
#[derive(Debug)]
pub struct MomentumRSI {
    /// Average gain.
    pub gain_ema: StreamingEMA,
    /// Average loss.
    pub loss_ema: StreamingEMA,
    /// Current strength, from zero to one, scaled.
    pub rsi_value: FixedValue,
    /// Last close.
    pub prev_close: FixedValue,
    /// A close was seen.
    pub initialized: bool,
    /// Overbought threshold.
    pub overbought: FixedValue,
    /// Oversold threshold.
    pub oversold: FixedValue,
    /// The strength rose to the overbought threshold.
    pub crossed_overbought: bool,
    /// The strength fell to the oversold threshold.
    pub crossed_oversold: bool,
}

/// Relative strength for an average gain and an average loss: `1 - 1 / (1 + RS)`,
/// where `RS` is their quotient. Neutral if there is neither.
pub open spec fn strength(avg_gain: int, avg_loss: int) -> int {
    if avg_loss == 0 {
        if avg_gain == 0 {
            MIDPOINT as int
        } else {
            SCALE as int
        }
    } else {
        SCALE - tdiv(
            10_000_000_000_000_000,
            SCALE + tdiv(avg_gain * SCALE, avg_loss),
        )
    }
}

impl MomentumRSI {
    /// Index over a period.
    pub fn new(period: u32) -> (r: Self)
        ensures
            r.gain_ema.multiplier == 200_000_000int / (period + 1),
            r.gain_ema.value == 0 && !r.gain_ema.initialized,
            r.loss_ema == r.gain_ema,
            r.rsi_value == MIDPOINT,
            r.prev_close == 0,
            !r.initialized,
            r.overbought == OVERBOUGHT,
            r.oversold == OVERSOLD,
            !r.crossed_overbought,
            !r.crossed_oversold,
            period > 0 ==> r.smooth(),
    {
        let ema = StreamingEMA::new(period);
        MomentumRSI {
            gain_ema: ema,
            loss_ema: ema,
            rsi_value: MIDPOINT,
            prev_close: 0,
            initialized: false,
            overbought: OVERBOUGHT,
            oversold: OVERSOLD,
            crossed_overbought: false,
            crossed_oversold: false,
        }
    }

    /// Averages of gain and loss smooth, and are not negative.
    pub open spec fn smooth(&self) -> bool {
        &&& self.gain_ema.smooths()
        &&& self.loss_ema.smooths()
        &&& 0 <= self.gain_ema.value
        &&& 0 <= self.loss_ema.value
    }

    /// Gain of a close.
    pub open spec fn gain(&self, close: int) -> int {
        max(close - self.prev_close, 0)
    }

    /// Loss of a close.
    pub open spec fn loss(&self, close: int) -> int {
        max(self.prev_close - close, 0)
    }

    /// Strength after a close.
    pub open spec fn next(&self, close: int) -> int {
        strength(self.gain_ema.next(self.gain(close)), self.loss_ema.next(self.loss(close)))
    }

    /// A close can be taken: all values fit, and the strength is defined.
    pub open spec fn accepts(&self, close: int) -> bool {
        self.initialized ==> {
            let avg_gain = self.gain_ema.next(self.gain(close));
            let avg_loss = self.loss_ema.next(self.loss(close));
            &&& fits_i64(self.gain(close)) && fits_i64(self.loss(close))
            &&& fits_i64(avg_gain) && fits_i64(avg_loss)
            &&& fits_i64(SCALE - self.gain_ema.multiplier)
            &&& fits_i64(SCALE - self.loss_ema.multiplier)
            &&& avg_loss != 0 ==> SCALE + tdiv(avg_gain * SCALE, avg_loss) != 0
        }
    }

    /// Index after a close.
    pub open spec fn updated(self, close: int) -> Self {
        if !self.initialized {
            MomentumRSI { prev_close: close as i64, initialized: true, ..self }
        } else {
            let rsi = self.next(close);
            MomentumRSI {
                gain_ema: self.gain_ema.updated(self.gain(close)),
                loss_ema: self.loss_ema.updated(self.loss(close)),
                rsi_value: rsi as i64,
                prev_close: close as i64,
                crossed_overbought: self.crossed_overbought || self.rsi_value < self.overbought
                    <= rsi,
                crossed_oversold: self.crossed_oversold || rsi <= self.oversold < self.rsi_value,
                ..self
            }
        }
    }

    /// Take a close into the index. Gives the strength.
    pub fn update(&mut self, close: FixedValue) -> (r: FixedValue)
        requires
            old(self).accepts(close as int),
        ensures
            *final(self) == old(self).updated(close as int),
            r == final(self).rsi_value,
            old(self).initialized ==> r == old(self).next(close as int),
    {
        if !self.initialized {
            self.prev_close = close;
            self.initialized = true;
            return self.rsi_value;
        }
        let change: i128 = close as i128 - self.prev_close as i128;
        let gain: i64 = if change > 0 {
            change as i64
        } else {
            0
        };
        let loss: i64 = if change < 0 {
            (-change) as i64
        } else {
            0
        };
        let avg_gain: i64 = self.gain_ema.update(gain);
        let avg_loss: i64 = self.loss_ema.update(loss);
        let prev_rsi: i64 = self.rsi_value;
        if avg_loss == 0 {
            self.rsi_value = if avg_gain == 0 {
                MIDPOINT
            } else {
                SCALE
            };
        } else {
            proof {
                lemma_tdiv_bound(avg_gain * SCALE, avg_loss as int);
                lemma_tdiv_bound(
                    10_000_000_000_000_000,
                    SCALE + tdiv(avg_gain * SCALE, avg_loss as int),
                );
            }
            let rs: i128 = div_i128(mul_wide(avg_gain, SCALE), avg_loss as i128);
            self.rsi_value = (SCALE as i128 - div_i128(
                10_000_000_000_000_000,
                SCALE as i128 + rs,
            )) as i64;
        }
        if prev_rsi < self.overbought && self.rsi_value >= self.overbought {
            self.crossed_overbought = true;
        }
        if prev_rsi > self.oversold && self.rsi_value <= self.oversold {
            self.crossed_oversold = true;
        }
        self.prev_close = close;
        self.rsi_value
    }

    /// Current strength.
    pub fn get(&self) -> (r: FixedValue)
        ensures
            r == self.rsi_value,
    {
        self.rsi_value
    }

    /// Check if the overbought threshold was crossed, and forget it.
    pub fn check_overbought_cross(&mut self) -> (r: bool)
        ensures
            r == old(self).crossed_overbought,
            *final(self) == (MomentumRSI { crossed_overbought: false, ..*old(self) }),
    {
        let detected = self.crossed_overbought;
        if detected {
            self.crossed_overbought = false;
        }
        detected
    }

    /// Check if the oversold threshold was crossed, and forget it.
    pub fn check_oversold_cross(&mut self) -> (r: bool)
        ensures
            r == old(self).crossed_oversold,
            *final(self) == (MomentumRSI { crossed_oversold: false, ..*old(self) }),
    {
        let detected = self.crossed_oversold;
        if detected {
            self.crossed_oversold = false;
        }
        detected
    }
}

/// The strength lies between zero and one.
pub proof fn lemma_strength_in_range(avg_gain: int, avg_loss: int)
    requires
        0 <= avg_gain,
        0 <= avg_loss,
    ensures
        0 <= strength(avg_gain, avg_loss) <= SCALE,
        avg_loss != 0 ==> SCALE + tdiv(avg_gain * SCALE, avg_loss) >= SCALE,
{
    if avg_loss != 0 {
        assert(avg_gain * 100_000_000 >= 0);
        lemma_tdiv_bound(avg_gain * SCALE, avg_loss);
        let d = SCALE + tdiv(avg_gain * SCALE, avg_loss);
        assert(0 <= 10_000_000_000_000_000int / d <= 100_000_000) by (nonlinear_arith)
            requires
                d >= 100_000_000,
        ;
    }
}

/// An index over a period takes every close whose change fits, and its averages
/// stay in order.
pub proof fn lemma_smooth_accepts(rsi: MomentumRSI, close: int)
    requires
        rsi.smooth(),
        fits_i64(close),
        fits_i64(close - rsi.prev_close),
        fits_i64(rsi.prev_close - close),
    ensures
        rsi.accepts(close),
        rsi.updated(close).smooth(),
{
    let g = rsi.gain(close);
    let l = rsi.loss(close);
    crate::indicators::streaming_ta::lemma_blend_between(
        g,
        rsi.gain_ema.value as int,
        rsi.gain_ema.multiplier as int,
    );
    crate::indicators::streaming_ta::lemma_blend_between(
        l,
        rsi.loss_ema.value as int,
        rsi.loss_ema.multiplier as int,
    );
    lemma_parts_nonnegative(g, rsi.gain_ema.value as int, rsi.gain_ema.multiplier as int);
    lemma_parts_nonnegative(l, rsi.loss_ema.value as int, rsi.loss_ema.multiplier as int);
    lemma_strength_in_range(
        rsi.gain_ema.next(g),
        rsi.loss_ema.next(l),
    );
}

/// An average of nonnegative numbers is not negative.
proof fn lemma_parts_nonnegative(price: int, value: int, m: int)
    requires
        0 <= price,
        0 <= value,
        0 <= m <= SCALE,
    ensures
        0 <= crate::indicators::streaming_ta::blend(price, value, m),
{
    assert(0 <= price * m) by (nonlinear_arith)
        requires
            0 <= price,
            0 <= m,
    ;
    assert(0 <= value * (100_000_000 - m)) by (nonlinear_arith)
        requires
            0 <= value,
            m <= 100_000_000,
    ;
}

/// Without any change the index stays neutral.
pub proof fn lemma_constant_is_neutral(rsi: MomentumRSI)
    requires
        rsi.initialized,
        rsi.gain_ema.initialized ==> rsi.gain_ema.value == 0,
        rsi.loss_ema.initialized ==> rsi.loss_ema.value == 0,
    ensures
        rsi.next(rsi.prev_close as int) == MIDPOINT,
{
}

/// Convergence and divergence of two averages.
#[derive(Debug)]
pub struct MomentumMACD {
    /// Fast average.
    pub fast_ema: StreamingEMA,
    /// Slow average.
    pub slow_ema: StreamingEMA,
    /// Average of the difference.
    pub signal_ema: StreamingEMA,
    /// Difference of the averages.
    pub macd_line: FixedValue,
    /// Signal line.
    pub signal_line: FixedValue,
    /// Difference from the signal line.
    pub histogram: FixedValue,
    /// Last difference from the signal line.
    pub prev_histogram: FixedValue,
    /// The signal line has a value.
    pub signal_initialized: bool,
    /// The histogram rose to zero.
    pub bullish_divergence: bool,
    /// The histogram fell to zero.
    pub bearish_divergence: bool,
}

impl MomentumMACD {
    /// Indicator over the given periods.
    pub fn new(fast_period: u32, slow_period: u32, signal_period: u32) -> (r: Self)
        ensures
            r.fast_ema.multiplier == 200_000_000int / (fast_period + 1),
            r.fast_ema.value == 0 && !r.fast_ema.initialized,
            r.slow_ema.multiplier == 200_000_000int / (slow_period + 1),
            r.slow_ema.value == 0 && !r.slow_ema.initialized,
            r.signal_ema.multiplier == 200_000_000int / (signal_period + 1),
            r.signal_ema.value == 0 && !r.signal_ema.initialized,
            r.macd_line == 0,
            r.signal_line == 0,
            r.histogram == 0,
            r.prev_histogram == 0,
            !r.signal_initialized,
            !r.bullish_divergence,
            !r.bearish_divergence,
            fast_period > 0 ==> r.fast_ema.smooths(),
            slow_period > 0 ==> r.slow_ema.smooths(),
            signal_period > 0 ==> r.signal_ema.smooths(),
    {
        MomentumMACD {
            fast_ema: StreamingEMA::new(fast_period),
            slow_ema: StreamingEMA::new(slow_period),
            signal_ema: StreamingEMA::new(signal_period),
            macd_line: 0,
            signal_line: 0,
            histogram: 0,
            prev_histogram: 0,
            signal_initialized: false,
            bullish_divergence: false,
            bearish_divergence: false,
        }
    }

    /// Difference of the averages after a price.
    pub open spec fn next_line(&self, price: int) -> int {
        self.fast_ema.next(price) - self.slow_ema.next(price)
    }

    /// Signal line after a price: it starts at the first difference.
    pub open spec fn next_signal(&self, price: int) -> int {
        if self.signal_initialized {
            self.signal_ema.next(self.next_line(price))
        } else {
            self.next_line(price)
        }
    }

    /// Histogram after a price.
    pub open spec fn next_histogram(&self, price: int) -> int {
        self.next_line(price) - self.next_signal(price)
    }

    /// A price can be taken: all values fit.
    pub open spec fn accepts(&self, price: int) -> bool {
        &&& fits_i64(self.fast_ema.next(price))
        &&& fits_i64(self.slow_ema.next(price))
        &&& fits_i64(self.next_line(price))
        &&& fits_i64(self.next_signal(price))
        &&& fits_i64(self.next_histogram(price))
        &&& fits_i64(SCALE - self.fast_ema.multiplier)
        &&& fits_i64(SCALE - self.slow_ema.multiplier)
        &&& fits_i64(SCALE - self.signal_ema.multiplier)
    }

    /// Indicator after a price.
    pub open spec fn updated(self, price: int) -> Self {
        let line = self.next_line(price);
        let histogram = self.next_histogram(price);
        MomentumMACD {
            fast_ema: self.fast_ema.updated(price),
            slow_ema: self.slow_ema.updated(price),
            signal_ema: if self.signal_initialized {
                self.signal_ema.updated(line)
            } else {
                StreamingEMA { value: line as i64, ..self.signal_ema }
            },
            macd_line: line as i64,
            signal_line: self.next_signal(price) as i64,
            histogram: histogram as i64,
            prev_histogram: self.histogram,
            signal_initialized: true,
            bullish_divergence: self.bullish_divergence || self.histogram < 0 <= histogram,
            bearish_divergence: self.bearish_divergence || histogram <= 0 < self.histogram,
        }
    }

    /// Take a price. Gives the difference of the averages, the signal line and the
    /// histogram.
    pub fn update(&mut self, price: FixedValue) -> (r: (FixedValue, FixedValue, FixedValue))
        requires
            old(self).accepts(price as int),
        ensures
            *final(self) == old(self).updated(price as int),
            r == (final(self).macd_line, final(self).signal_line, final(self).histogram),
    {
        let fast: i64 = self.fast_ema.update(price);
        let slow: i64 = self.slow_ema.update(price);
        self.macd_line = fast - slow;
        if self.signal_initialized {
            self.signal_line = self.signal_ema.update(self.macd_line);
        } else {
            self.signal_line = self.macd_line;
            self.signal_ema.value = self.macd_line;
            self.signal_initialized = true;
        }
        self.prev_histogram = self.histogram;
        self.histogram = self.macd_line - self.signal_line;
        self.detect_divergence();
        (self.macd_line, self.signal_line, self.histogram)
    }

    /// Note a histogram that crosses zero.
    fn detect_divergence(&mut self)
        ensures
            *final(self) == (MomentumMACD {
                bullish_divergence: old(self).bullish_divergence || old(self).prev_histogram < 0
                    <= old(self).histogram,
                bearish_divergence: old(self).bearish_divergence || old(self).histogram <= 0 < old(self).prev_histogram,
                ..*old(self)
            }),
    {
        if self.prev_histogram < 0 && self.histogram >= 0 {
            self.bullish_divergence = true;
        }
        if self.prev_histogram > 0 && self.histogram <= 0 {
            self.bearish_divergence = true;
        }
    }

    /// Difference of the averages, signal line and histogram.
    pub fn get(&self) -> (r: (FixedValue, FixedValue, FixedValue))
        ensures
            r == (self.macd_line, self.signal_line, self.histogram),
    {
        (self.macd_line, self.signal_line, self.histogram)
    }

    /// Check for a bullish divergence, and forget it.
    pub fn check_bullish_divergence(&mut self) -> (r: bool)
        ensures
            r == old(self).bullish_divergence,
            *final(self) == (MomentumMACD { bullish_divergence: false, ..*old(self) }),
    {
        let detected = self.bullish_divergence;
        if detected {
            self.bullish_divergence = false;
        }
        detected
    }

    /// Check for a bearish divergence, and forget it.
    pub fn check_bearish_divergence(&mut self) -> (r: bool)
        ensures
            r == old(self).bearish_divergence,
            *final(self) == (MomentumMACD { bearish_divergence: false, ..*old(self) }),
    {
        let detected = self.bearish_divergence;
        if detected {
            self.bearish_divergence = false;
        }
        detected
    }
}

/// The histogram is always the difference of the two lines.
pub proof fn lemma_histogram(macd: MomentumMACD, price: int)
    requires
        macd.accepts(price),
    ensures
        ({
            let after = macd.updated(price);
            after.histogram == after.macd_line - after.signal_line
        }),
{
}

/// Upward movement of a candle: how far the high rose, if that is more than the low
/// fell.
pub open spec fn plus_dm(prev_high: int, prev_low: int, high: int, low: int) -> int {
    if high - prev_high > prev_low - low && high - prev_high > 0 {
        high - prev_high
    } else {
        0
    }
}

/// Downward movement of a candle: how far the low fell, if that is more than the
/// high rose.
pub open spec fn minus_dm(prev_high: int, prev_low: int, high: int, low: int) -> int {
    if prev_low - low > high - prev_high && prev_low - low > 0 {
        prev_low - low
    } else {
        0
    }
}

/// True range of a candle: its own range, or that from the last close.
pub open spec fn true_range(prev_close: int, high: int, low: int) -> int {
    max(high - low, max(abs(high - prev_close), abs(low - prev_close)))
}

/// True range of a candle.
pub fn candle_range(prev_close: i64, high: i64, low: i64) -> (r: i128)
    ensures
        r == true_range(prev_close as int, high as int, low as int),
        0 <= r,
{
    let own: i128 = high as i128 - low as i128;
    let up: i128 = high as i128 - prev_close as i128;
    let down: i128 = low as i128 - prev_close as i128;
    let up_size: i128 = if up >= 0 {
        up
    } else {
        -up
    };
    let down_size: i128 = if down >= 0 {
        down
    } else {
        -down
    };
    let outer: i128 = if up_size >= down_size {
        up_size
    } else {
        down_size
    };
    if own >= outer {
        own
    } else {
        outer
    }
}

/// For candles that contain their close no movement exceeds the true range.
pub proof fn lemma_movement_within_range(
    prev_high: int,
    prev_low: int,
    prev_close: int,
    high: int,
    low: int,
)
    requires
        prev_low <= prev_close <= prev_high,
        low <= high,
    ensures
        0 <= plus_dm(prev_high, prev_low, high, low) <= true_range(prev_close, high, low),
        0 <= minus_dm(prev_high, prev_low, high, low) <= true_range(prev_close, high, low),
        plus_dm(prev_high, prev_low, high, low) == 0 || minus_dm(prev_high, prev_low, high, low)
            == 0,
{
}

/// Average directional index.
#[derive(Debug)]
pub struct MomentumADX {
    /// Upward movements, in a ring.
    pub plus_dm_buffer: [FixedValue; 100],
    /// Downward movements, in a ring.
    pub minus_dm_buffer: [FixedValue; 100],
    /// True ranges, in a ring.
    pub tr_buffer: [FixedValue; 100],
    /// Upward indicator.
    pub plus_di: FixedValue,
    /// Downward indicator.
    pub minus_di: FixedValue,
    /// Current index.
    pub adx_value: FixedValue,
    /// Candles after the first.
    pub idx: u64,
    /// Candles in the window.
    pub count: u32,
    /// Window.
    pub period: u32,
    /// Last high.
    pub prev_high: FixedValue,
    /// Last low.
    pub prev_low: FixedValue,
    /// Last close.
    pub prev_close: FixedValue,
    /// A candle was seen.
    pub initialized: bool,
}

/// Sum of a window of nonnegative numbers, held within the range of the type.
pub open spec fn held_sum(s: Seq<i64>) -> int {
    min(seq_sum(s), i64::MAX as int)
}

/// No number is negative.
pub open spec fn nonnegative(s: Seq<i64>) -> bool {
    forall|i: int| 0 <= i < s.len() ==> 0 <= #[trigger] s[i]
}

/// Sum of the first `n` numbers of a window, held within the range of the type.
fn sum_held(a: &[i64; 100], n: usize) -> (r: i64)
    requires
        n <= 100,
        nonnegative(a@),
    ensures
        r == held_sum(a@.take(n as int)),
        0 <= r,
{
    let mut total: i128 = 0;
    let mut i: usize = 0;
    while i < n
        invariant
            i <= n <= 100,
            nonnegative(a@),
            total == seq_sum(a@.take(i as int)),
            0 <= total <= i * (i64::MAX),
        decreases n - i,
    {
        assert(a@.take(i + 1).drop_last() =~= a@.take(i as int));
        assert(0 <= a@[i as int]);
        total = total + a[i] as i128;
        i = i + 1;
    }
    if total > i64::MAX as i128 {
        i64::MAX
    } else {
        total as i64
    }
}

impl MomentumADX {
    /// The window is within bounds, nothing in it is negative, and neither are the
    /// indicators.
    pub open spec fn wf(&self) -> bool {
        &&& self.period <= MAX_ADX_LOOKBACK
        &&& self.count == min(self.idx as int, self.period as int)
        &&& nonnegative(self.plus_dm_buffer@)
        &&& nonnegative(self.minus_dm_buffer@)
        &&& nonnegative(self.tr_buffer@)
        &&& 0 <= self.plus_di
        &&& 0 <= self.minus_di
        &&& 0 <= self.adx_value <= SCALE
    }

    /// Index over a period.
    pub fn new(period: u32) -> (r: Self)
        requires
            period <= MAX_ADX_LOOKBACK,
        ensures
            r.wf(),
            forall|i: int| 0 <= i < 100 ==> r.plus_dm_buffer@[i] == 0,
            forall|i: int| 0 <= i < 100 ==> r.minus_dm_buffer@[i] == 0,
            forall|i: int| 0 <= i < 100 ==> r.tr_buffer@[i] == 0,
            r.plus_di == 0,
            r.minus_di == 0,
            r.adx_value == 0,
            r.idx == 0,
            r.count == 0,
            r.period == period,
            r.prev_high == 0,
            r.prev_low == 0,
            r.prev_close == 0,
            !r.initialized,
    {
        MomentumADX {
            plus_dm_buffer: [0i64;100],
            minus_dm_buffer: [0i64;100],
            tr_buffer: [0i64;100],
            plus_di: 0,
            minus_di: 0,
            adx_value: 0,
            idx: 0,
            count: 0,
            period,
            prev_high: 0,
            prev_low: 0,
            prev_close: 0,
            initialized: false,
        }
    }

    /// Place of the next candle.
    pub open spec fn place(&self) -> int {
        self.idx as int % self.period as int
    }

    /// Candles in the window after the next.
    pub open spec fn next_count(&self) -> int {
        min(self.count + 1, self.period as int)
    }

    /// Upward movement of the next candle.
    pub open spec fn up(&self, high: i64, low: i64) -> int {
        plus_dm(self.prev_high as int, self.prev_low as int, high as int, low as int)
    }

    /// Downward movement of the next candle.
    pub open spec fn down(&self, high: i64, low: i64) -> int {
        minus_dm(self.prev_high as int, self.prev_low as int, high as int, low as int)
    }

    /// True range of the next candle.
    pub open spec fn range(&self, high: i64, low: i64) -> int {
        true_range(self.prev_close as int, high as int, low as int)
    }

    /// Sum of the window of a buffer with one more number.
    pub open spec fn window_sum(&self, buffer: Seq<i64>, x: int) -> int {
        held_sum(buffer.update(self.place(), x as i64).take(self.next_count()))
    }

    /// Upward indicator after the next candle: the share of upward movement in the
    /// true range. It stays where there is no range.
    pub open spec fn next_plus(&self, high: i64, low: i64) -> int {
        let tr = self.window_sum(self.tr_buffer@, self.range(high, low));
        if tr > 0 {
            self.window_sum(self.plus_dm_buffer@, self.up(high, low)) * SCALE / tr
        } else {
            self.plus_di as int
        }
    }

    /// Downward indicator after the next candle.
    pub open spec fn next_minus(&self, high: i64, low: i64) -> int {
        let tr = self.window_sum(self.tr_buffer@, self.range(high, low));
        if tr > 0 {
            self.window_sum(self.minus_dm_buffer@, self.down(high, low)) * SCALE / tr
        } else {
            self.minus_di as int
        }
    }

    /// Index after the next candle: the share of the difference of the indicators in
    /// their sum. It stays where both are zero.
    pub open spec fn next_adx(&self, high: i64, low: i64) -> int {
        let plus = self.next_plus(high, low);
        let minus = self.next_minus(high, low);
        if plus + minus > 0 {
            abs(plus - minus) * SCALE / (plus + minus)
        } else {
            self.adx_value as int
        }
    }

    /// A candle can be taken: all values fit.
    pub open spec fn accepts(&self, high: i64, low: i64) -> bool {
        self.initialized ==> {
            &&& self.period > 0
            &&& self.idx < u64::MAX
            &&& fits_i64(self.up(high, low))
            &&& fits_i64(self.down(high, low))
            &&& fits_i64(self.range(high, low))
            &&& fits_i64(self.next_plus(high, low))
            &&& fits_i64(self.next_minus(high, low))
        }
    }

    /// `post` is the index after a candle.
    pub open spec fn stepped(pre: Self, high: i64, low: i64, close: i64, post: Self) -> bool {
        if !pre.initialized {
            post == (MomentumADX {
                prev_high: high,
                prev_low: low,
                prev_close: close,
                initialized: true,
                ..pre
            })
        } else {
            &&& post.plus_dm_buffer@ == pre.plus_dm_buffer@.update(
                pre.place(),
                pre.up(high, low) as i64,
            )
            &&& post.minus_dm_buffer@ == pre.minus_dm_buffer@.update(
                pre.place(),
                pre.down(high, low) as i64,
            )
            &&& post.tr_buffer@ == pre.tr_buffer@.update(pre.place(), pre.range(high, low) as i64)
            &&& post == (MomentumADX {
                plus_dm_buffer: post.plus_dm_buffer,
                minus_dm_buffer: post.minus_dm_buffer,
                tr_buffer: post.tr_buffer,
                plus_di: pre.next_plus(high, low) as i64,
                minus_di: pre.next_minus(high, low) as i64,
                adx_value: pre.next_adx(high, low) as i64,
                idx: (pre.idx + 1) as u64,
                count: pre.next_count() as u32,
                prev_high: high,
                prev_low: low,
                prev_close: close,
                ..pre
            })
        }
    }

    /// Take a candle into the index. Gives the index; zero for the first candle.
    #[verifier::rlimit(40)]
    pub fn update(&mut self, high: FixedValue, low: FixedValue, close: FixedValue) -> (r: FixedValue)
        requires
            old(self).wf(),
            old(self).accepts(high, low),
        ensures
            final(self).wf(),
            Self::stepped(*old(self), high, low, close, *final(self)),
            r == if old(self).initialized {
                final(self).adx_value
            } else {
                0
            },
    {
        if !self.initialized {
            self.prev_high = high;
            self.prev_low = low;
            self.prev_close = close;
            self.initialized = true;
            return 0;
        }
        let up_move: i128 = high as i128 - self.prev_high as i128;
        let down_move: i128 = self.prev_low as i128 - low as i128;
        let plus: i64 = if up_move > down_move && up_move > 0 {
            up_move as i64
        } else {
            0
        };
        let minus: i64 = if down_move > up_move && down_move > 0 {
            down_move as i64
        } else {
            0
        };
        let tr: i64 = candle_range(self.prev_close, high, low) as i64;
        let i: usize = (self.idx % self.period as u64) as usize;
        proof {
            vstd::arithmetic::div_mod::lemma_mod_bound(self.idx as int, self.period as int);
        }
        self.plus_dm_buffer[i] = plus;
        self.minus_dm_buffer[i] = minus;
        self.tr_buffer[i] = tr;
        self.idx = self.idx + 1;
        if self.count < self.period {
            self.count = self.count + 1;
        }
        let n: usize = self.count as usize;
        assert(nonnegative(self.plus_dm_buffer@));
        assert(nonnegative(self.minus_dm_buffer@));
        assert(nonnegative(self.tr_buffer@));
        let sum_plus: i64 = sum_held(&self.plus_dm_buffer, n);
        let sum_minus: i64 = sum_held(&self.minus_dm_buffer, n);
        let sum_tr: i64 = sum_held(&self.tr_buffer, n);
        if sum_tr > 0 {
            proof {
                lemma_tdiv_bound(sum_plus * SCALE, sum_tr as int);
                lemma_tdiv_bound(sum_minus * SCALE, sum_tr as int);
            }
            self.plus_di = div_i128(mul_wide(sum_plus, SCALE), sum_tr as i128) as i64;
            self.minus_di = div_i128(mul_wide(sum_minus, SCALE), sum_tr as i128) as i64;
        }
        assert(self.plus_di == old(self).next_plus(high, low));
        assert(self.minus_di == old(self).next_minus(high, low));
        let di_sum: i128 = self.plus_di as i128 + self.minus_di as i128;
        let di_diff: i128 = if self.plus_di >= self.minus_di {
            self.plus_di as i128 - self.minus_di as i128
        } else {
            self.minus_di as i128 - self.plus_di as i128
        };
        if di_sum > 0 {
            proof {
                lemma_share(di_diff as int, di_sum as int);
            }
            self.adx_value = (di_diff * 100_000_000 / di_sum) as i64;
        }
        self.prev_high = high;
        self.prev_low = low;
        self.prev_close = close;
        self.adx_value
    }

    /// Current index.
    pub fn get(&self) -> (r: FixedValue)
        ensures
            r == self.adx_value,
    {
        self.adx_value
    }

    /// Upward indicator.
    pub fn get_plus_di(&self) -> (r: FixedValue)
        ensures
            r == self.plus_di,
    {
        self.plus_di
    }

    /// Downward indicator.
    pub fn get_minus_di(&self) -> (r: FixedValue)
        ensures
            r == self.minus_di,
    {
        self.minus_di
    }
}

/// A share of a larger number is at most one.
proof fn lemma_share(part: int, whole: int)
    requires
        0 <= part <= whole,
        0 < whole,
    ensures
        0 <= part * 100_000_000 / whole <= 100_000_000,
{
    assert(0 <= part * 100_000_000 / whole <= 100_000_000) by (nonlinear_arith)
        requires
            0 <= part <= whole,
            0 < whole,
    ;
}

/// A rise of the close is a gain and no loss, a fall a loss and no gain.
pub proof fn lemma_change_is_gain_or_loss(rsi: MomentumRSI, close: int)
    ensures
        close >= rsi.prev_close ==> rsi.gain(close) == close - rsi.prev_close && rsi.loss(close)
            == 0,
        close <= rsi.prev_close ==> rsi.loss(close) == rsi.prev_close - close && rsi.gain(close)
            == 0,
{
}

/// The strength: one without losses, zero without gains, one half where both are alike;
/// it never falls as the gains grow nor rises as the losses grow.
pub proof fn lemma_strength_follows_gains(gain: int, more: int, loss: int)
    requires
        0 <= gain <= more,
        0 < loss,
    ensures
        more > 0 ==> strength(more, 0) == 100_000_000,
        strength(0, loss) == 0,
        strength(loss, loss) == 50_000_000,
        strength(gain, loss) <= strength(more, loss),
{
    let (x, y) = (gain * 100_000_000, more * 100_000_000);
    lemma_tdiv_monotone(x, y, loss);
    let (a, b) = (tdiv(x, loss), tdiv(y, loss));
    lemma_tdiv_rounds(x, loss);
    assert(a >= 0) by (nonlinear_arith)
        requires
            0 <= x < a * loss + loss,
            loss > 0,
    ;
    let w = 10_000_000_000_000_000int;
    assert(w / (100_000_000 + a) >= w / (100_000_000 + b)) by (nonlinear_arith)
        requires
            0 <= a <= b,
            w >= 0,
    ;
    lemma_tdiv_unique(0, loss, 0);
    assert(0 * SCALE == 0);
    assert(tdiv(0 * SCALE, loss) == 0);
    assert(w / 100_000_000 == 100_000_000);
    lemma_tdiv_unique(loss * 100_000_000, loss, 100_000_000);
    assert(100_000_000 * loss == loss * 100_000_000) by (nonlinear_arith);
}

/// The strength is one less the inverse of one plus the quotient of gains and losses, in
/// units of 10^-8: with `rs` the quotient rounded down, the rest up to one times one plus
/// `rs` is one, short of it by less than one plus `rs`.
pub proof fn lemma_strength_value(gain: int, loss: int, rs: int)
    requires
        0 <= gain,
        0 < loss,
        rs * loss <= gain * 100_000_000 < (rs + 1) * loss,
    ensures
        ({
            let rest = 100_000_000 - strength(gain, loss);
            rest * (100_000_000 + rs) <= 10_000_000_000_000_000 < (rest + 1) * (100_000_000 + rs)
        }),
{
    assert((rs + 1) * loss == rs * loss + loss) by (nonlinear_arith);
    lemma_tdiv_unique(gain * 100_000_000, loss, rs);
    assert(rs >= 0) by (nonlinear_arith)
        requires
            0 <= gain * 100_000_000 < rs * loss + loss,
            loss > 0,
    ;
    lemma_tdiv_rounds(10_000_000_000_000_000, 100_000_000 + rs);
    let q = tdiv(10_000_000_000_000_000, 100_000_000 + rs);
    let n = 100_000_000 + rs;
    assert((q + 1) * n == q * n + n) by (nonlinear_arith);
}

/// A threshold counts as crossed from the moment on that the strength comes to it from
/// the other side, until it is asked for.
pub proof fn lemma_crossing(rsi: MomentumRSI, close: int)
    requires
        rsi.initialized,
        rsi.accepts(close),
        rsi.smooth(),
    ensures
        ({
            let after = rsi.updated(close);
            &&& rsi.crossed_overbought ==> after.crossed_overbought
            &&& !rsi.crossed_overbought ==> (after.crossed_overbought <==> rsi.rsi_value
                < rsi.overbought && after.rsi_value >= rsi.overbought)
            &&& !rsi.crossed_oversold ==> (after.crossed_oversold <==> rsi.rsi_value
                > rsi.oversold && after.rsi_value <= rsi.oversold)
            &&& after.prev_close == close as i64
        }),
{
    let (g, l) = (
        rsi.gain_ema.next(rsi.gain(close)),
        rsi.loss_ema.next(rsi.loss(close)),
    );
    lemma_parts_nonnegative(
        rsi.gain(close),
        rsi.gain_ema.value as int,
        rsi.gain_ema.multiplier as int,
    );
    lemma_parts_nonnegative(
        rsi.loss(close),
        rsi.loss_ema.value as int,
        rsi.loss_ema.multiplier as int,
    );
    lemma_strength_in_range(g, l);
}

/// The line is the fast average less the slow one, and the histogram the line less the
/// signal. The first line is the first signal. A histogram that comes from below zero to
/// zero or above is bullish, one that comes from above to zero or below bearish.
pub proof fn lemma_macd_parts(m: MomentumMACD, price: int)
    requires
        m.accepts(price),
    ensures
        ({
            let after = m.updated(price);
            &&& after.macd_line == after.fast_ema.value - after.slow_ema.value
            &&& after.histogram == after.macd_line - after.signal_line
            &&& !m.signal_initialized ==> after.signal_line == after.macd_line
            &&& after.prev_histogram == m.histogram
            &&& !m.bullish_divergence ==> (after.bullish_divergence <==> m.histogram < 0
                && after.histogram >= 0)
            &&& !m.bearish_divergence ==> (after.bearish_divergence <==> m.histogram > 0
                && after.histogram <= 0)
        }),
{
}

/// The range of a candle covers its own range and the distance of both its ends from the
/// close before, and is the largest of the three.
pub proof fn lemma_true_range(prev_close: int, high: int, low: int)
    requires
        low <= high,
    ensures
        ({
            let r = true_range(prev_close, high, low);
            &&& r >= high - low
            &&& r >= high - prev_close
            &&& r >= prev_close - low
            &&& r == high - low || r == high - prev_close || r == prev_close - low
        }),
{
}

/// Upward movement counts where the high rose by more than the low fell, downward
/// movement where the low fell by more than the high rose, each by that distance.
pub proof fn lemma_directional_movement(prev_high: int, prev_low: int, high: int, low: int)
    ensures
        ({
            let (up, down) = (high - prev_high, prev_low - low);
            &&& up > down && up > 0 ==> plus_dm(prev_high, prev_low, high, low) == up
            &&& up <= down || up <= 0 ==> plus_dm(prev_high, prev_low, high, low) == 0
            &&& down > up && down > 0 ==> minus_dm(prev_high, prev_low, high, low) == down
            &&& down <= up || down <= 0 ==> minus_dm(prev_high, prev_low, high, low) == 0
        }),
{
}

/// The directional indicators are the shares of upward and downward movement in the
/// ranges of the window; the index is the share of their difference in their sum.
pub proof fn lemma_adx_parts(a: MomentumADX, high: i64, low: i64)
    requires
        a.wf(),
        a.initialized,
        a.accepts(high, low),
        low <= high,
        a.window_sum(a.tr_buffer@, a.range(high, low)) > 0,
    ensures
        ({
            let tr = a.window_sum(a.tr_buffer@, a.range(high, low));
            let up = a.window_sum(a.plus_dm_buffer@, a.up(high, low));
            let down = a.window_sum(a.minus_dm_buffer@, a.down(high, low));
            let (p, m, x) = (a.next_plus(high, low), a.next_minus(high, low), a.next_adx(high, low));
            &&& p * tr <= up * 100_000_000 < (p + 1) * tr
            &&& m * tr <= down * 100_000_000 < (m + 1) * tr
            &&& p + m > 0 && p >= m ==> x * (p + m) <= (p - m) * 100_000_000 < (x + 1) * (p + m)
            &&& p + m > 0 && m >= p ==> x * (p + m) <= (m - p) * 100_000_000 < (x + 1) * (p + m)
        }),
{
    let tr = a.window_sum(a.tr_buffer@, a.range(high, low));
    let up = a.window_sum(a.plus_dm_buffer@, a.up(high, low)) * 100_000_000;
    let down = a.window_sum(a.minus_dm_buffer@, a.down(high, low)) * 100_000_000;
    let (p, m) = (up / tr, down / tr);
    assert(p * tr <= up < (p + 1) * tr && m * tr <= down < (m + 1) * tr) by (nonlinear_arith)
        requires
            p == up / tr,
            m == down / tr,
            tr > 0,
    ;
    let d = abs(p - m) * 100_000_000;
    let n = p + m;
    if n > 0 {
        let x = d / n;
        assert(x * n <= d < (x + 1) * n) by (nonlinear_arith)
            requires
                x == d / n,
                n > 0,
        ;
    }
}

/// A window is summed in full, up to the largest number that the type holds.
pub proof fn lemma_window_is_summed(s: Seq<i64>)
    ensures
        seq_sum(s) <= 0x7fff_ffff_ffff_ffff ==> held_sum(s) == seq_sum(s),
        seq_sum(s) > 0x7fff_ffff_ffff_ffff ==> held_sum(s) == 0x7fff_ffff_ffff_ffff,
{
}

/// A window that is not full grows by one candle.
pub proof fn lemma_window_fills(a: MomentumADX)
    ensures
        a.count < a.period ==> a.next_count() == a.count + 1,
        a.count >= a.period ==> a.next_count() == a.period,
{
}

} // verus!
