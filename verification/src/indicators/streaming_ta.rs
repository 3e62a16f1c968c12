//! Streaming averages: exponential, simple and weighted by volume.

use vstd::prelude::*;
use crate::fixed::{
    div_i128, div_i64, fits_i128, fits_i64, lemma_sum_update, lemma_sum_zeros, lemma_tdiv_bound,
    lemma_tdiv_rounds, max, min, mul_wide, sat_add, sat_sub, saturating_add_i64,
    saturating_sub_i64, seq_sum, tdiv,
};

verus! {

broadcast use vstd::array::group_array_axioms;

/// Scaled value.
pub type FixedValue = i64;

/// One, scaled.
pub const SCALE: i64 = 100_000_000;

/// Maximum window.
pub const MAX_WINDOW: usize = 512;

/// Exponential average.
#[derive(Debug, Clone, Copy)]
pub struct StreamingEMA {
    /// Current value.
    pub value: FixedValue,
    /// Weight of a new price, scaled.
    pub multiplier: FixedValue,
    /// A price was seen.
    pub initialized: bool,
    /// Fills the cache line.
    pub padding: [u8; 47],
}

/// Average of a price and a value, where the price has weight `m`, scaled.
pub open spec fn blend(price: int, value: int, m: int) -> int {
    tdiv(price * m, SCALE as int) + tdiv(value * (SCALE - m), SCALE as int)
}

impl StreamingEMA {
    /// Average over a period.
    pub fn new(period: u32) -> (r: Self)
        ensures
            r.value == 0,
            r.multiplier == 200_000_000int / (period + 1),
            !r.initialized,
            period > 0 ==> r.smooths(),
    {
        let multiplier: i64 = 200_000_000 / (period as i64 + 1);
        assert(period > 0 ==> 0 <= multiplier <= 100_000_000) by (nonlinear_arith)
            requires
                multiplier == 200_000_000int / (period + 1),
                period >= 0,
        ;
        StreamingEMA { value: 0, multiplier, initialized: false, padding: [0u8;47] }
    }

    /// The weight of a new price lies between zero and one.
    pub open spec fn smooths(&self) -> bool {
        0 <= self.multiplier <= SCALE
    }

    /// Value after a price.
    pub open spec fn next(&self, price: int) -> int {
        if self.initialized {
            blend(price, self.value as int, self.multiplier as int)
        } else {
            price
        }
    }

    /// Average after a price.
    pub open spec fn updated(self, price: int) -> Self {
        StreamingEMA { value: self.next(price) as i64, initialized: true, ..self }
    }

    /// Average after `n` equal prices.
    pub open spec fn fed(self, price: int, n: nat) -> Self
        decreases n,
    {
        if n == 0 {
            self
        } else {
            self.fed(price, (n - 1) as nat).updated(price)
        }
    }

    /// Take a price into the average.
    pub fn update(&mut self, price: FixedValue) -> (r: FixedValue)
        requires
            fits_i64(old(self).next(price as int)),
            old(self).initialized ==> fits_i64(SCALE - old(self).multiplier),
        ensures
            r == old(self).next(price as int),
            *final(self) == old(self).updated(price as int),
    {
        if !self.initialized {
            self.value = price;
            self.initialized = true;
        } else {
            let price_part: i128 = div_i128(mul_wide(price, self.multiplier), SCALE as i128);
            let value_part: i128 = div_i128(
                mul_wide(self.value, SCALE - self.multiplier),
                SCALE as i128,
            );
            proof {
                lemma_tdiv_bound(price * self.multiplier, SCALE as int);
                lemma_tdiv_bound(self.value * (SCALE - self.multiplier), SCALE as int);
            }
            self.value = (price_part + value_part) as i64;
        }
        self.value
    }

    /// Current value.
    pub fn get(&self) -> (r: FixedValue)
        ensures
            r == self.value,
    {
        self.value
    }

    /// Forget all prices.
    pub fn reset(&mut self)
        ensures
            *final(self) == (StreamingEMA { value: 0, initialized: false, ..*old(self) }),
    {
        self.value = 0;
        self.initialized = false;
    }
}

/// Part of a number that a weight between zero and one leaves.
proof fn lemma_part(x: int, m: int)
    requires
        0 <= m <= SCALE,
        0 <= x,
    ensures
        0 <= tdiv(x * m, SCALE as int) <= x,
        tdiv(x * m, SCALE as int) * SCALE <= x * m,
        x * m < (tdiv(x * m, SCALE as int) + 1) * SCALE,
        tdiv(-x * m, SCALE as int) == -tdiv(x * m, SCALE as int),
{
    assert(0 <= x * m <= x * 100_000_000) by (nonlinear_arith)
        requires
            0 <= m <= 100_000_000,
            0 <= x,
    ;
    assert(-x * m == -(x * m)) by (nonlinear_arith);
}

/// An average of a price and a value lies between them, up to the rounding of its
/// two parts. In particular it always fits.
pub proof fn lemma_blend_between(price: int, value: int, m: int)
    requires
        0 <= m <= SCALE,
    ensures
        price >= 0 && value >= 0 ==> min(price, value) - 1 <= blend(price, value, m) <= max(
            price,
            value,
        ),
        fits_i64(price) && fits_i64(value) ==> fits_i64(blend(price, value, m)),
{
    let n = SCALE - m;
    let p = if price >= 0 {
        price
    } else {
        -price
    };
    let v = if value >= 0 {
        value
    } else {
        -value
    };
    lemma_part(p, m);
    lemma_part(v, n);
    let a = tdiv(p * m, SCALE as int);
    let b = tdiv(v * n, SCALE as int);
    let top = max(p, v);
    let low = min(p, v);
    assert(p * m + v * n <= top * 100_000_000) by (nonlinear_arith)
        requires
            m + n == 100_000_000,
            0 <= m,
            0 <= n,
            p <= top,
            v <= top,
    ;
    assert(p * m + v * n >= low * 100_000_000) by (nonlinear_arith)
        requires
            m + n == 100_000_000,
            0 <= m,
            0 <= n,
            p >= low,
            v >= low,
    ;
    assert(a + b <= top);
    assert(a + b >= low - 1);
    assert(price * m == p * m || price * m == -p * m);
    assert(value * n == v * n || value * n == -v * n);
}

/// A price pulls the average towards it: from above by one at least, from further
/// below than `slack` by one at least, and from in between not out of there.
proof fn lemma_blend_moves(price: int, value: int, m: int, slack: int)
    requires
        0 <= m <= SCALE,
        0 <= price,
        0 <= value,
        slack * m >= 2 * SCALE,
    ensures
        slack >= 2,
        0 <= blend(price, value, m),
        value > price ==> price - 1 <= blend(price, value, m) < value,
        price - slack <= value <= price ==> price - slack <= blend(price, value, m) <= price,
        value < price - slack ==> value < blend(price, value, m) <= price,
{
    let n = SCALE - m;
    lemma_part(price, m);
    lemma_part(value, n);
    lemma_blend_between(price, value, m);
    assert(m > 0 && slack >= 2) by (nonlinear_arith)
        requires
            0 <= m <= 100_000_000,
            slack * m >= 200_000_000,
    ;
    assert(price * m + value * n == value * 100_000_000 + (price - value) * m) by (nonlinear_arith)
        requires
            m + n == 100_000_000,
    ;
    if value > price {
        assert((price - value) * m < 0) by (nonlinear_arith)
            requires
                price < value,
                0 < m,
        ;
    } else if value < price - slack {
        assert((price - value) * m >= slack * m) by (nonlinear_arith)
            requires
                price - value >= slack,
                0 < m,
        ;
    } else {
        assert((price - value) * m >= (price - value) * 100_000_000 - slack * 100_000_000 + slack
            * m) by (nonlinear_arith)
            requires
                price - value <= slack,
                m <= 100_000_000,
        ;
    }
}

/// An average converges to a constant price: every price brings it nearer by one at
/// least, until it lies no further below the price than the rounding lets it; there
/// it stays.
pub proof fn lemma_constant_price(ema: StreamingEMA, price: int, slack: int, n: nat)
    requires
        ema.smooths(),
        ema.initialized,
        ema.value >= 0,
        0 <= price <= i64::MAX,
        slack * ema.multiplier >= 2 * SCALE,
    ensures
        ema.fed(price, n).value >= min(price - slack, ema.value + n),
        ema.fed(price, n).value <= max(price, ema.value - n),
        ema.fed(price, n).value >= 0,
        ema.fed(price, n).initialized,
        ema.fed(price, n).multiplier == ema.multiplier,
    decreases n,
{
    if n > 0 {
        lemma_constant_price(ema, price, slack, (n - 1) as nat);
        let before = ema.fed(price, (n - 1) as nat);
        lemma_blend_between(price, before.value as int, ema.multiplier as int);
        lemma_blend_moves(price, before.value as int, ema.multiplier as int, slack);
    }
}

/// Simple average over a window.
#[derive(Debug)]
pub struct StreamingSMA {
    /// Prices of the window, in a ring.
    pub buffer: [FixedValue; 512],
    /// Sum of the prices.
    pub sum: FixedValue,
    /// Prices so far.
    pub idx: u64,
    /// Prices in the window.
    pub count: u32,
    /// Window.
    pub period: u32,
}

impl StreamingSMA {
    /// The window is within bounds, and places not yet used are zero.
    pub open spec fn wf(&self) -> bool {
        &&& self.period <= MAX_WINDOW
        &&& self.count == min(self.idx as int, self.period as int)
        &&& forall|i: int| self.count <= i < MAX_WINDOW ==> self.buffer@[i] == 0
    }

    /// Prices of the window.
    pub open spec fn window(&self) -> Seq<i64> {
        self.buffer@.take(self.period as int)
    }

    /// The sum is that of the window: it holds as long as no sum leaves the range of
    /// the type.
    pub open spec fn exact(&self) -> bool {
        self.sum == seq_sum(self.window())
    }

    /// Average over a window.
    pub fn new(period: u32) -> (r: Self)
        requires
            period <= MAX_WINDOW,
        ensures
            r.wf(),
            r.exact(),
            r.sum == 0,
            r.idx == 0,
            r.count == 0,
            r.period == period,
    {
        let r = StreamingSMA { buffer: [0i64;512], sum: 0, idx: 0, count: 0, period };
        proof {
            lemma_sum_zeros(r.window());
        }
        r
    }

    /// Place of the next price.
    pub open spec fn place(&self) -> int {
        self.idx as int % self.period as int
    }

    /// Price that leaves the window: zero if the window is not full.
    pub open spec fn oldest(&self) -> int {
        if self.count >= self.period {
            self.buffer@[self.place()] as int
        } else {
            0
        }
    }

    /// Average of the window.
    pub open spec fn average(&self) -> int {
        if self.count > 0 {
            tdiv(self.sum as int, self.count as int)
        } else {
            0
        }
    }

    /// `post` is the average after a price.
    pub open spec fn stepped(pre: Self, price: i64, post: Self) -> bool {
        &&& post.buffer@ == pre.buffer@.update(pre.place(), price)
        &&& post.sum == sat_add(sat_sub(pre.sum as int, pre.oldest()), price as int)
        &&& post.idx == pre.idx + 1
        &&& post.count == min(pre.count + 1, pre.period as int)
        &&& post.period == pre.period
    }

    /// Take a price into the window. Gives the average.
    pub fn update(&mut self, price: FixedValue) -> (r: FixedValue)
        requires
            old(self).wf(),
            old(self).period > 0,
            old(self).idx < u64::MAX,
        ensures
            final(self).wf(),
            Self::stepped(*old(self), price, *final(self)),
            r == final(self).average(),
            old(self).exact() && fits_i64(old(self).sum - old(self).oldest()) && fits_i64(
                old(self).sum - old(self).oldest() + price,
            ) ==> final(self).exact(),
    {
        let i: usize = (self.idx % self.period as u64) as usize;
        proof {
            if self.idx < self.period {
                vstd::arithmetic::div_mod::lemma_small_mod(self.idx as nat, self.period as nat);
            } else {
                vstd::arithmetic::div_mod::lemma_mod_bound(self.idx as int, self.period as int);
            }
            lemma_sum_update(self.window(), i as int, price);
            assert(self.buffer@.update(i as int, price).take(self.period as int)
                =~= self.window().update(i as int, price));
        }
        if self.count >= self.period {
            self.sum = saturating_sub_i64(self.sum, self.buffer[i]);
        } else {
            self.count = self.count + 1;
        }
        self.buffer[i] = price;
        self.sum = saturating_add_i64(self.sum, price);
        self.idx = self.idx + 1;
        self.get()
    }

    /// Average of the window; zero if it is empty.
    pub fn get(&self) -> (r: FixedValue)
        ensures
            r == self.average(),
    {
        if self.count > 0 {
            div_i64(self.sum, self.count as i64)
        } else {
            0
        }
    }

    /// Forget all prices.
    pub fn reset(&mut self)
        requires
            old(self).wf(),
        ensures
            final(self).wf(),
            final(self).exact(),
            final(self).sum == 0,
            final(self).idx == 0,
            final(self).count == 0,
            final(self).period == old(self).period,
    {
        self.sum = 0;
        self.count = 0;
        self.idx = 0;
        self.buffer = [0i64;512];
        proof {
            lemma_sum_zeros(self.window());
        }
    }
}

/// Average weighted by volume.
#[derive(Debug, Clone, Copy)]
pub struct StreamingVWAP {
    /// Sum of typical price times volume.
    pub cum_tp_volume: i128,
    /// Sum of volume.
    pub cum_volume: i128,
    /// Start of the session.
    pub session_start_ns: u64,
    /// Current value.
    pub current_vwap: FixedValue,
    /// Fills the cache line.
    pub padding: [u8; 16],
}

/// Typical price of a candle.
pub open spec fn typical(high: i64, low: i64, close: i64) -> int {
    tdiv(high + low + close, 3)
}

impl StreamingVWAP {
    /// Average at the start of a session.
    pub open spec fn spec_new(session_start_ns: u64) -> Self {
        StreamingVWAP {
            cum_tp_volume: 0,
            cum_volume: 0,
            session_start_ns,
            current_vwap: 0,
            padding: vstd::array::spec_array_fill_for_copy_type::<u8, 16>(0u8),
        }
    }

    /// Average without candles.
    pub fn new() -> (r: Self)
        ensures
            r == Self::spec_new(0),
    {
        StreamingVWAP {
            cum_tp_volume: 0,
            cum_volume: 0,
            session_start_ns: 0,
            current_vwap: 0,
            padding: [0u8;16],
        }
    }

    /// Average after a candle.
    pub open spec fn updated(self, high: i64, low: i64, close: i64, volume: i64) -> Self {
        let total = self.cum_tp_volume + typical(high, low, close) * volume;
        let volumes = self.cum_volume + volume;
        StreamingVWAP {
            cum_tp_volume: total as i128,
            cum_volume: volumes as i128,
            current_vwap: if volumes > 0 {
                tdiv(total, volumes) as i64
            } else {
                self.current_vwap
            },
            ..self
        }
    }

    /// The sums after a candle fit.
    pub open spec fn accepts(&self, high: i64, low: i64, close: i64, volume: i64) -> bool {
        fits_i128(self.cum_tp_volume + typical(high, low, close) * volume) && fits_i128(
            self.cum_volume + volume,
        )
    }

    /// Take a candle into the average. Gives its value.
    pub fn update(
        &mut self,
        high: FixedValue,
        low: FixedValue,
        close: FixedValue,
        volume: i64,
    ) -> (r: FixedValue)
        requires
            old(self).accepts(high, low, close, volume),
        ensures
            *final(self) == old(self).updated(high, low, close, volume),
            r == final(self).current_vwap,
    {
        let typical_price: i64 = div_i128(high as i128 + low as i128 + close as i128, 3) as i64;
        assert(typical_price == typical(high, low, close));
        self.cum_tp_volume = self.cum_tp_volume + mul_wide(typical_price, volume);
        self.cum_volume = self.cum_volume + volume as i128;
        if self.cum_volume > 0 {
            self.current_vwap = div_i128(self.cum_tp_volume, self.cum_volume) as i64;
        }
        self.current_vwap
    }

    /// Start a new session.
    pub fn reset_session(&mut self, timestamp_ns: u64)
        ensures
            *final(self) == (StreamingVWAP {
                cum_tp_volume: 0,
                cum_volume: 0,
                session_start_ns: timestamp_ns,
                current_vwap: 0,
                ..*old(self)
            }),
    {
        self.cum_tp_volume = 0;
        self.cum_volume = 0;
        self.session_start_ns = timestamp_ns;
        self.current_vwap = 0;
    }

    /// Current value.
    pub fn get(&self) -> (r: FixedValue)
        ensures
            r == self.current_vwap,
    {
        self.current_vwap
    }

    /// All typical prices so far lie between two bounds, as far as the sums show.
    pub open spec fn between(&self, lo: int, hi: int) -> bool {
        &&& 0 <= self.cum_volume
        &&& lo * self.cum_volume <= self.cum_tp_volume <= hi * self.cum_volume
    }
}

impl Default for StreamingVWAP {
    fn default() -> (r: Self)
        ensures
            r == StreamingVWAP::spec_new(0),
    {
        Self::new()
    }
}

/// The average weighted by volume lies between the smallest and the largest typical
/// price of the session.
pub proof fn lemma_vwap_between(
    v: StreamingVWAP,
    high: i64,
    low: i64,
    close: i64,
    volume: i64,
    lo: int,
    hi: int,
)
    requires
        v.accepts(high, low, close, volume),
        v.between(lo, hi),
        0 <= lo <= typical(high, low, close) <= hi <= i64::MAX,
        0 < volume,
    ensures
        v.updated(high, low, close, volume).between(lo, hi),
        lo <= v.updated(high, low, close, volume).current_vwap <= hi,
{
    let tp = typical(high, low, close);
    let total = v.cum_tp_volume + tp * volume;
    let volumes = v.cum_volume + volume;
    assert(lo * volumes <= total <= hi * volumes) by (nonlinear_arith)
        requires
            lo * v.cum_volume <= v.cum_tp_volume <= hi * v.cum_volume,
            lo <= tp <= hi,
            0 < volume,
            total == v.cum_tp_volume + tp * volume,
            volumes == v.cum_volume + volume,
    ;
    assert(0 <= total && lo <= total / volumes <= hi) by (nonlinear_arith)
        requires
            lo * volumes <= total <= hi * volumes,
            0 < volumes,
            0 <= lo,
    ;
}

/// Indicators of one instrument.
#[derive(Debug)]
pub struct IndicatorBundle {
    /// Fast exponential average.
    pub ema_fast: StreamingEMA,
    /// Slow exponential average.
    pub ema_slow: StreamingEMA,
    /// Simple average.
    pub sma: StreamingSMA,
    /// Average weighted by volume.
    pub vwap: StreamingVWAP,
}

impl IndicatorBundle {
    /// The window is in order.
    pub open spec fn wf(&self) -> bool {
        self.sma.wf()
    }

    /// Indicators over the given periods.
    pub fn new(fast_period: u32, slow_period: u32, sma_period: u32) -> (r: Self)
        requires
            sma_period <= MAX_WINDOW,
        ensures
            r.wf(),
            r.ema_fast.multiplier == 200_000_000int / (fast_period + 1),
            r.ema_fast.value == 0 && !r.ema_fast.initialized,
            r.ema_slow.multiplier == 200_000_000int / (slow_period + 1),
            r.ema_slow.value == 0 && !r.ema_slow.initialized,
            r.sma.exact() && r.sma.idx == 0 && r.sma.count == 0 && r.sma.period == sma_period,
            r.vwap == StreamingVWAP::spec_new(0),
            fast_period > 0 ==> r.ema_fast.smooths(),
            slow_period > 0 ==> r.ema_slow.smooths(),
    {
        IndicatorBundle {
            ema_fast: StreamingEMA::new(fast_period),
            ema_slow: StreamingEMA::new(slow_period),
            sma: StreamingSMA::new(sma_period),
            vwap: StreamingVWAP::new(),
        }
    }

    /// Take a price into the averages. Gives the fast, the slow and the simple one.
    pub fn update_price(&mut self, price: FixedValue) -> (r: (FixedValue, FixedValue, FixedValue))
        requires
            old(self).wf(),
            fits_i64(old(self).ema_fast.next(price as int)),
            old(self).ema_fast.initialized ==> fits_i64(SCALE - old(self).ema_fast.multiplier),
            fits_i64(old(self).ema_slow.next(price as int)),
            old(self).ema_slow.initialized ==> fits_i64(SCALE - old(self).ema_slow.multiplier),
            old(self).sma.period > 0,
            old(self).sma.idx < u64::MAX,
        ensures
            final(self).wf(),
            final(self).ema_fast == old(self).ema_fast.updated(price as int),
            final(self).ema_slow == old(self).ema_slow.updated(price as int),
            StreamingSMA::stepped(old(self).sma, price, final(self).sma),
            final(self).vwap == old(self).vwap,
            r == (final(self).ema_fast.value, final(self).ema_slow.value, final(self).sma.average() as i64),
    {
        let fast: i64 = self.ema_fast.update(price);
        let slow: i64 = self.ema_slow.update(price);
        let sma: i64 = self.sma.update(price);
        (fast, slow, sma)
    }

    /// Take a candle into the average weighted by volume. Gives its value.
    pub fn update_vwap(
        &mut self,
        high: FixedValue,
        low: FixedValue,
        close: FixedValue,
        volume: i64,
    ) -> (r: FixedValue)
        requires
            old(self).wf(),
            old(self).vwap.accepts(high, low, close, volume),
        ensures
            final(self).wf(),
            *final(self) == (IndicatorBundle {
                vwap: old(self).vwap.updated(high, low, close, volume),
                ..*old(self)
            }),
            r == final(self).vwap.current_vwap,
    {
        self.vwap.update(high, low, close, volume)
    }
}

/// A new price weighs by the multiplier and the value so far by the rest of the whole;
/// each of the two parts is rounded down.
pub proof fn lemma_blend_weights(price: int, value: int, m: int)
    requires
        0 <= price,
        0 <= value,
        0 <= m <= 100_000_000,
    ensures
        ({
            let exact = price * m + value * (100_000_000 - m);
            let mixed = blend(price, value, m) * 100_000_000;
            mixed <= exact < mixed + 200_000_000
        }),
        m == 100_000_000 ==> blend(price, value, m) == price,
        m == 0 ==> blend(price, value, m) == value,
{
    let (x, y) = (price * m, value * (100_000_000 - m));
    assert(x >= 0 && y >= 0) by (nonlinear_arith)
        requires
            x == price * m,
            y == value * (100_000_000 - m),
            price >= 0,
            value >= 0,
            0 <= m <= 100_000_000,
    ;
    lemma_tdiv_rounds(x, 100_000_000);
    lemma_tdiv_rounds(y, 100_000_000);
    assert(m == 0 ==> x == 0 && y == value * 100_000_000) by (nonlinear_arith)
        requires
            x == price * m,
            y == value * (100_000_000 - m),
    ;
    assert(m == 100_000_000 ==> y == 0) by (nonlinear_arith)
        requires
            y == value * (100_000_000 - m),
    ;
}

/// The first price is taken as it is; each later one is mixed with the value so far.
pub proof fn lemma_first_price_taken(ema: StreamingEMA, price: i64)
    requires
        !ema.initialized,
    ensures
        ema.next(price as int) == price,
        ema.updated(price as int).value == price,
        ema.updated(price as int).initialized,
        ema.updated(price as int).multiplier == ema.multiplier,
{
}

/// The window holds the latest of a run of prices.
pub open spec fn holds_latest(sma: StreamingSMA, prices: Seq<i64>) -> bool {
    &&& prices.len() == sma.idx
    &&& forall|i: int|
        #![trigger prices[i]]
        sma.idx - sma.count <= i < sma.idx ==> sma.buffer@[i % (sma.period as int)] == prices[i]
}

/// After each price the window holds the latest `period` prices: the new one comes in,
/// the oldest one leaves.
pub proof fn lemma_window_holds_latest(pre: StreamingSMA, price: i64, post: StreamingSMA, prices: Seq<i64>)
    requires
        pre.wf(),
        pre.period > 0,
        StreamingSMA::stepped(pre, price, post),
        holds_latest(pre, prices),
    ensures
        holds_latest(post, prices.push(price)),
        post.count == if pre.idx + 1 < pre.period {
            pre.idx + 1
        } else {
            pre.period as int
        },
{
    let p = pre.period as int;
    let all = prices.push(price);
    assert forall|i: int|
        #![trigger all[i]]
        post.idx - post.count <= i < post.idx implies post.buffer@[i % p] == all[i] by {
        vstd::arithmetic::div_mod::lemma_mod_bound(i, p);
        if i < pre.idx {
            crate::ring::lemma_places_differ(i, pre.idx as int, p);
            assert(all[i] == prices[i]);
        }
    }
}

/// The average times the number of prices is their sum, short of it by less than that
/// number.
pub proof fn lemma_average_of_window(sma: StreamingSMA)
    requires
        sma.count > 0,
        sma.sum >= 0,
    ensures
        sma.average() * sma.count <= sma.sum < (sma.average() + 1) * sma.count,
{
    let (s, n) = (sma.sum as int, sma.count as int);
    lemma_tdiv_rounds(s, n);
    let q = tdiv(s, n);
    assert((q + 1) * n == q * n + n) by (nonlinear_arith);
}

/// The volume weighted price times the volume is the sum of typical prices times volumes,
/// a third of high, low and close each.
pub proof fn lemma_vwap_is_weighted(v: StreamingVWAP, high: i64, low: i64, close: i64, volume: i64)
    requires
        v.accepts(high, low, close, volume),
        v.between(0, i64::MAX as int),
        0 <= high + low + close,
        0 <= high <= i64::MAX,
        0 <= low,
        0 <= close,
        volume > 0,
    ensures
        ({
            let after = v.updated(high, low, close, volume);
            let t = typical(high, low, close);
            &&& 3 * t <= high + low + close < 3 * t + 3
            &&& after.cum_volume == v.cum_volume + volume
            &&& after.cum_tp_volume == v.cum_tp_volume + t * volume
            &&& after.current_vwap * after.cum_volume <= after.cum_tp_volume < (after.current_vwap
                + 1) * after.cum_volume
        }),
{
    let t = typical(high, low, close);
    lemma_tdiv_rounds(high + low + close, 3);
    lemma_vwap_between(v, high, low, close, volume, 0, i64::MAX as int);
    let (x, n) = (v.cum_tp_volume + t * volume, v.cum_volume + volume);
    assert(x >= 0) by (nonlinear_arith)
        requires
            x == v.cum_tp_volume + t * volume,
            v.cum_tp_volume >= 0 * v.cum_volume,
            t >= 0,
            volume > 0,
    ;
    lemma_tdiv_rounds(x, n);
    let q = tdiv(x, n);
    assert((q + 1) * n == q * n + n) by (nonlinear_arith);
    assert(0 <= q <= i64::MAX) by (nonlinear_arith)
        requires
            0 <= x - q * n < n,
            0 <= x <= 0x7fff_ffff_ffff_ffff * n,
            n > 0,
    ;
}

} // verus!
