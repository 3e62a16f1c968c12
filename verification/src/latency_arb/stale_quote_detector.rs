//! Stale quotes of market makers, and imbalance of aggressive trades.

use vstd::prelude::*;

verus! {

broadcast use vstd::array::group_array_axioms;

/// Scaled price.
pub type FixedPrice = i64;

/// Scaled quantity.
pub type FixedQty = i64;

/// Time.
pub type TscTicks = u64;

/// Maximum number of makers.
pub const MAX_MARKERS: usize = 16;

/// Imbalance of balanced trades.
pub const NEUTRAL: u64 = 5000;

/// Quote of a market maker.
#[derive(Debug, Clone, Copy)]
pub struct MakerQuote {
    /// Maker.
    pub maker_id: u32,
    /// Bid.
    pub bid_price: FixedPrice,
    /// Ask.
    pub ask_price: FixedPrice,
    /// Quantity at the bid.
    pub bid_qty: FixedQty,
    /// Quantity at the ask.
    pub ask_qty: FixedQty,
    /// Time of the quote.
    pub last_update_ticks: TscTicks,
    /// Age of the quote when last checked.
    pub quote_age_ticks: TscTicks,
    /// Checks that found the quote stale.
    pub staleness_score: u64,
    /// Quote is stale.
    pub is_stale: bool,
}

impl MakerQuote {
    /// Maker without a quote.
    pub open spec fn spec_new(maker_id: u32) -> Self {
        MakerQuote {
            maker_id,
            bid_price: 0,
            ask_price: i64::MAX,
            bid_qty: 0,
            ask_qty: 0,
            last_update_ticks: 0,
            quote_age_ticks: 0,
            staleness_score: 0,
            is_stale: false,
        }
    }

    /// Maker without a quote.
    pub fn new(maker_id: u32) -> (r: Self)
        ensures
            r == Self::spec_new(maker_id),
    {
        MakerQuote {
            maker_id,
            bid_price: 0,
            ask_price: i64::MAX,
            bid_qty: 0,
            ask_qty: 0,
            last_update_ticks: 0,
            quote_age_ticks: 0,
            staleness_score: 0,
            is_stale: false,
        }
    }

    /// Take a quote that came at time `now`.
    pub fn update(
        &mut self,
        bid: FixedPrice,
        ask: FixedPrice,
        bid_qty: FixedQty,
        ask_qty: FixedQty,
        now: TscTicks,
    )
        ensures
            *final(self) == (MakerQuote {
                bid_price: bid,
                ask_price: ask,
                bid_qty,
                ask_qty,
                last_update_ticks: now,
                quote_age_ticks: 0,
                is_stale: false,
                ..*old(self)
            }),
    {
        self.bid_price = bid;
        self.ask_price = ask;
        self.bid_qty = bid_qty;
        self.ask_qty = ask_qty;
        self.last_update_ticks = now;
        self.quote_age_ticks = 0;
        self.is_stale = false;
    }

    /// Age of the quote.
    pub open spec fn age(&self, now: TscTicks) -> u64 {
        now.wrapping_sub(self.last_update_ticks)
    }

    /// Quote after a check of its age. A quote that was found stale stays so until
    /// the next one.
    pub open spec fn checked(self, threshold_ticks: u64, now: TscTicks) -> Self {
        let old_quote = self.age(now) > threshold_ticks;
        MakerQuote {
            quote_age_ticks: self.age(now),
            is_stale: self.is_stale || old_quote,
            staleness_score: if old_quote {
                self.staleness_score.wrapping_add(1)
            } else {
                self.staleness_score
            },
            ..self
        }
    }

    /// Check if the quote is too old at time `now`, and note it.
    pub fn check_staleness(&mut self, threshold_ticks: u64, now: TscTicks) -> (r: bool)
        ensures
            r == (old(self).age(now) > threshold_ticks),
            *final(self) == old(self).checked(threshold_ticks, now),
    {
        let age: u64 = now.wrapping_sub(self.last_update_ticks);
        self.quote_age_ticks = age;
        if age > threshold_ticks {
            self.is_stale = true;
            self.staleness_score = self.staleness_score.wrapping_add(1);
            true
        } else {
            false
        }
    }
}

/// Detector of stale quotes.
#[derive(Debug)]
pub struct StaleQuoteDetector {
    /// Quotes of the makers.
    pub markers: [MakerQuote; 16],
    /// Number of makers.
    pub marker_count: u8,
    /// Age above which a quote is stale.
    pub staleness_threshold_ticks: u64,
    /// Most quotes were stale.
    pub toxic_flow_detected: bool,
    /// Protection is on.
    pub protection_active: bool,
}

/// Number of the first `n` quotes that are too old.
pub open spec fn stale_total(markers: Seq<MakerQuote>, n: nat, threshold: u64, now: u64) -> nat
    decreases n,
{
    if n == 0 {
        0
    } else {
        stale_total(markers, (n - 1) as nat, threshold, now) + if markers[n - 1].age(now)
            > threshold {
            1nat
        } else {
            0nat
        }
    }
}

/// Highest bid above zero of the first `n` quotes that are not stale; zero if there
/// is none.
pub open spec fn is_best_bid(markers: Seq<MakerQuote>, n: int, best: i64) -> bool {
    &&& best >= 0
    &&& forall|i: int| 0 <= i < n && !(#[trigger] markers[i]).is_stale ==> markers[i].bid_price <= best
    &&& best > 0 ==> exists|i: int|
        0 <= i < n && !(#[trigger] markers[i]).is_stale && markers[i].bid_price == best
}

/// Lowest ask of the first `n` quotes that are not stale; the largest price if there
/// is none.
pub open spec fn is_best_ask(markers: Seq<MakerQuote>, n: int, best: i64) -> bool {
    &&& forall|i: int| 0 <= i < n && !(#[trigger] markers[i]).is_stale ==> markers[i].ask_price >= best
    &&& best < i64::MAX ==> exists|i: int|
        0 <= i < n && !(#[trigger] markers[i]).is_stale && markers[i].ask_price == best
}

impl StaleQuoteDetector {
    /// There are no more makers than places.
    pub open spec fn wf(&self) -> bool {
        self.marker_count <= MAX_MARKERS
    }

    /// Detector without makers.
    pub fn new(threshold_ticks: u64) -> (r: Self)
        ensures
            r.wf(),
            forall|i: int| 0 <= i < MAX_MARKERS ==> r.markers@[i] == MakerQuote::spec_new(0),
            r.marker_count == 0,
            r.staleness_threshold_ticks == threshold_ticks,
            !r.toxic_flow_detected,
            !r.protection_active,
    {
        StaleQuoteDetector {
            markers: [MakerQuote::new(0);16],
            marker_count: 0,
            staleness_threshold_ticks: threshold_ticks,
            toxic_flow_detected: false,
            protection_active: false,
        }
    }

    /// Register a maker. Fails if there is no place left.
    pub fn register_maker(&mut self, maker_id: u32) -> (r: bool)
        requires
            old(self).wf(),
        ensures
            final(self).wf(),
            r == (old(self).marker_count < MAX_MARKERS),
            r ==> final(self).markers@ == old(self).markers@.update(
                old(self).marker_count as int,
                MakerQuote::spec_new(maker_id),
            ) && *final(self) == (StaleQuoteDetector {
                markers: final(self).markers,
                marker_count: (old(self).marker_count + 1) as u8,
                ..*old(self)
            }),
            !r ==> *final(self) == *old(self),
    {
        let count: usize = self.marker_count as usize;
        if count >= MAX_MARKERS {
            return false;
        }
        self.markers[count] = MakerQuote::new(maker_id);
        self.marker_count = self.marker_count + 1;
        true
    }

    /// Check the quotes of all makers at time `now`. Gives the number of stale ones;
    /// flags toxic flow if they are more than half.
    pub fn scan_staleness(&mut self, now: TscTicks) -> (r: u64)
        requires
            old(self).wf(),
        ensures
            final(self).wf(),
            r == stale_total(
                old(self).markers@,
                old(self).marker_count as nat,
                old(self).staleness_threshold_ticks,
                now,
            ),
            forall|i: int|
                0 <= i < MAX_MARKERS ==> #[trigger] final(self).markers@[i] == if i < old(self).marker_count {
                    old(self).markers@[i].checked(old(self).staleness_threshold_ticks, now)
                } else {
                    old(self).markers@[i]
                },
            *final(self) == (StaleQuoteDetector {
                markers: final(self).markers,
                toxic_flow_detected: old(self).toxic_flow_detected || r > old(self).marker_count / 2,
                ..*old(self)
            }),
    {
        let count: usize = self.marker_count as usize;
        let threshold: u64 = self.staleness_threshold_ticks;
        let mut stale_count: u64 = 0;
        let mut i: usize = 0;
        while i < count
            invariant
                i <= count == self.marker_count,
                count <= MAX_MARKERS,
                threshold == old(self).staleness_threshold_ticks,
                stale_count == stale_total(old(self).markers@, i as nat, threshold, now),
                stale_count <= i,
                forall|k: int|
                    0 <= k < MAX_MARKERS ==> #[trigger] self.markers@[k] == if k < i {
                        old(self).markers@[k].checked(threshold, now)
                    } else {
                        old(self).markers@[k]
                    },
                *self == (StaleQuoteDetector { markers: self.markers, ..*old(self) }),
            decreases count - i,
        {
            let mut quote = self.markers[i];
            if quote.check_staleness(threshold, now) {
                stale_count = stale_count + 1;
            }
            self.markers[i] = quote;
            i = i + 1;
        }
        if stale_count > (count / 2) as u64 && count > 0 {
            self.toxic_flow_detected = true;
        }
        stale_count
    }

    /// Best bid that is not stale; zero if there is none.
    pub fn get_best_fresh_bid(&self) -> (r: FixedPrice)
        requires
            self.wf(),
        ensures
            is_best_bid(self.markers@, self.marker_count as int, r),
    {
        let count: usize = self.marker_count as usize;
        let mut best_bid: i64 = 0;
        let mut i: usize = 0;
        while i < count
            invariant
                i <= count <= MAX_MARKERS,
                is_best_bid(self.markers@, i as int, best_bid),
            decreases count - i,
        {
            let quote = self.markers[i];
            if !quote.is_stale {
                if quote.bid_price > best_bid {
                    best_bid = quote.bid_price;
                }
            }
            i = i + 1;
        }
        best_bid
    }

    /// Best ask that is not stale; the largest price if there is none.
    pub fn get_best_fresh_ask(&self) -> (r: FixedPrice)
        requires
            self.wf(),
        ensures
            is_best_ask(self.markers@, self.marker_count as int, r),
    {
        let count: usize = self.marker_count as usize;
        let mut best_ask: i64 = i64::MAX;
        let mut i: usize = 0;
        while i < count
            invariant
                i <= count <= MAX_MARKERS,
                is_best_ask(self.markers@, i as int, best_ask),
            decreases count - i,
        {
            let quote = self.markers[i];
            if !quote.is_stale {
                if quote.ask_price < best_ask {
                    best_ask = quote.ask_price;
                }
            }
            i = i + 1;
        }
        best_ask
    }

    /// Turn protection on.
    pub fn enable_protection(&mut self)
        ensures
            *final(self) == (StaleQuoteDetector { protection_active: true, ..*old(self) }),
    {
        self.protection_active = true;
    }

    /// Check if protection is on.
    pub fn is_protected(&self) -> (r: bool)
        ensures
            r == self.protection_active,
    {
        self.protection_active
    }

    /// Check if toxic flow was detected.
    pub fn is_toxic(&self) -> (r: bool)
        ensures
            r == self.toxic_flow_detected,
    {
        self.toxic_flow_detected
    }

    /// Forget toxic flow.
    pub fn reset_toxic_flag(&mut self)
        ensures
            *final(self) == (StaleQuoteDetector { toxic_flow_detected: false, ..*old(self) }),
    {
        self.toxic_flow_detected = false;
    }
}

/// A quote that has just come is not stale, whatever the threshold.
pub proof fn lemma_new_quote_is_fresh(quote: MakerQuote, threshold_ticks: u64, now: u64)
    requires
        quote.last_update_ticks == now,
        !quote.is_stale,
    ensures
        !quote.checked(threshold_ticks, now).is_stale,
{
}

/// A quote that was found stale stays so in later checks, until it is replaced.
pub proof fn lemma_stale_until_replaced(quote: MakerQuote, threshold_ticks: u64, now: u64)
    requires
        quote.is_stale,
    ensures
        quote.checked(threshold_ticks, now).is_stale,
{
}

/// There is only one best bid.
pub proof fn lemma_best_bid_unique(markers: Seq<MakerQuote>, n: int, a: i64, b: i64)
    requires
        is_best_bid(markers, n, a),
        is_best_bid(markers, n, b),
    ensures
        a == b,
{
}

/// Balance of aggressive trades.
#[derive(Debug)]
pub struct TradeMapper {
    /// Buffer for trades.
    pub recent_trades: Vec<u8>,
    /// Trades so far.
    pub trade_count: u64,
    /// Trades that the buffer is meant for.
    pub max_trades: usize,
    /// Quantity bought aggressively.
    pub aggressive_buy_count: u64,
    /// Quantity sold aggressively.
    pub aggressive_sell_count: u64,
    /// Share of buys, in ten thousandths.
    pub imbalance_ratio: u64,
}

impl TradeMapper {
    /// The share of buys is at most one.
    pub open spec fn wf(&self) -> bool {
        self.imbalance_ratio <= 10000
    }

    /// Mapper without trades: balanced.
    pub fn new(recent_trades: Vec<u8>, max_trades: usize) -> (r: Self)
        ensures
            r.wf(),
            r.recent_trades == recent_trades,
            r.trade_count == 0,
            r.max_trades == max_trades,
            r.aggressive_buy_count == 0,
            r.aggressive_sell_count == 0,
            r.imbalance_ratio == NEUTRAL,
    {
        TradeMapper {
            recent_trades,
            trade_count: 0,
            max_trades,
            aggressive_buy_count: 0,
            aggressive_sell_count: 0,
            imbalance_ratio: NEUTRAL,
        }
    }

    /// Quantity bought after a trade.
    pub open spec fn buys(&self, is_buy: bool, qty: FixedQty) -> u64 {
        if is_buy {
            self.aggressive_buy_count.wrapping_add(qty as u64)
        } else {
            self.aggressive_buy_count
        }
    }

    /// Quantity sold after a trade.
    pub open spec fn sells(&self, is_buy: bool, qty: FixedQty) -> u64 {
        if is_buy {
            self.aggressive_sell_count
        } else {
            self.aggressive_sell_count.wrapping_add(qty as u64)
        }
    }

    /// Record an aggressive trade.
    pub fn record_aggressive_trade(&mut self, is_buy: bool, qty: FixedQty)
        requires
            old(self).wf(),
        ensures
            final(self).wf(),
            ({
                let buys = old(self).buys(is_buy, qty);
                let sells = old(self).sells(is_buy, qty);
                *final(self) == (TradeMapper {
                    aggressive_buy_count: buys,
                    aggressive_sell_count: sells,
                    imbalance_ratio: if buys + sells > 0 {
                        (buys * 10000 / (buys + sells)) as u64
                    } else {
                        old(self).imbalance_ratio
                    },
                    trade_count: old(self).trade_count.wrapping_add(1),
                    ..*old(self)
                })
            }),
            ({
                let buys = final(self).aggressive_buy_count;
                let total = buys + final(self).aggressive_sell_count;
                total > 0 ==> final(self).imbalance_ratio * total <= buys * 10_000 < (
                final(self).imbalance_ratio + 1) * total
            }),
    {
        if is_buy {
            self.aggressive_buy_count = self.aggressive_buy_count.wrapping_add(qty as u64);
        } else {
            self.aggressive_sell_count = self.aggressive_sell_count.wrapping_add(qty as u64);
        }
        let buys: u128 = self.aggressive_buy_count as u128;
        let total: u128 = buys + self.aggressive_sell_count as u128;
        if total > 0 {
            assert(buys * 10000 / (total as int) <= 10000) by (nonlinear_arith)
                requires
                    0 <= buys <= total,
                    0 < total,
            ;
            proof {
                let (b, t) = (buys as int, total as int);
                let q = b * 10000 / t;
                assert(q * t <= b * 10000 < (q + 1) * t) by (nonlinear_arith)
                    requires
                        q == b * 10000 / t,
                        0 < t,
                ;
            }
            self.imbalance_ratio = (buys * 10000 / total) as u64;
        }
        self.trade_count = self.trade_count.wrapping_add(1);
    }

    /// Share of buys (0 = all sells, 10000 = all buys).
    pub fn get_imbalance(&self) -> (r: u64)
        ensures
            r == self.imbalance_ratio,
    {
        self.imbalance_ratio
    }

    /// Check if the trades are further from balance than a threshold.
    pub fn is_imbalanced(&self, threshold: u64) -> (r: bool)
        ensures
            r == (self.imbalance_ratio > NEUTRAL + threshold || self.imbalance_ratio < NEUTRAL
                - threshold),
            r == (self.imbalance_ratio - 5000 > threshold || 5000 - self.imbalance_ratio
                > threshold),
    {
        let ratio: i128 = self.get_imbalance() as i128;
        ratio > NEUTRAL as i128 + threshold as i128 || ratio < NEUTRAL as i128 - threshold as i128
    }
}

/// A quote is stale from the first check on that finds it older than the threshold; each
/// such check raises its score by one.
pub proof fn lemma_stale_by_age(quote: MakerQuote, threshold_ticks: u64, now: u64)
    requires
        now >= quote.last_update_ticks,
        quote.staleness_score < u64::MAX,
    ensures
        ({
            let age = now - quote.last_update_ticks;
            let after = quote.checked(threshold_ticks, now);
            &&& quote.age(now) == age
            &&& after.quote_age_ticks == age
            &&& after.is_stale == (quote.is_stale || age > threshold_ticks)
            &&& after.staleness_score == quote.staleness_score + if age > threshold_ticks {
                1int
            } else {
                0
            }
            &&& after.bid_price == quote.bid_price && after.ask_price == quote.ask_price
        }),
{
}

/// The number of stale quotes counts each quote that is too old once: it grows by one
/// with each of them and by nothing with the others.
pub proof fn lemma_stale_total_counts(markers: Seq<MakerQuote>, n: nat, threshold: u64, now: u64)
    requires
        n < markers.len(),
        forall|i: int| 0 <= i < markers.len() ==> now >= (#[trigger] markers[i]).last_update_ticks,
    ensures
        stale_total(markers, 0, threshold, now) == 0,
        now - markers[n as int].last_update_ticks > threshold ==> stale_total(
            markers,
            n + 1,
            threshold,
            now,
        ) == stale_total(markers, n, threshold, now) + 1,
        now - markers[n as int].last_update_ticks <= threshold ==> stale_total(
            markers,
            n + 1,
            threshold,
            now,
        ) == stale_total(markers, n, threshold, now),
{
    assert(now >= markers[n as int].last_update_ticks);
}

/// A buy adds its quantity to the buys and a sell to the sells, and to nothing else.
pub proof fn lemma_trade_counted_by_side(m: TradeMapper, qty: FixedQty)
    requires
        qty >= 0,
        m.aggressive_buy_count + qty <= u64::MAX,
        m.aggressive_sell_count + qty <= u64::MAX,
    ensures
        m.buys(true, qty) == m.aggressive_buy_count + qty,
        m.sells(true, qty) == m.aggressive_sell_count,
        m.buys(false, qty) == m.aggressive_buy_count,
        m.sells(false, qty) == m.aggressive_sell_count + qty,
{
}

/// The best prices are those of fresh quotes: none of them bids more or asks less. Where
/// every quote is stale, the bid is zero and the ask the largest price.
pub proof fn lemma_best_of_fresh(markers: Seq<MakerQuote>, n: int, bid: i64, ask: i64, i: int)
    requires
        is_best_bid(markers, n, bid),
        is_best_ask(markers, n, ask),
        0 <= i < n,
    ensures
        bid >= 0,
        !markers[i].is_stale ==> markers[i].bid_price <= bid && ask <= markers[i].ask_price,
        (forall|j: int| 0 <= j < n ==> (#[trigger] markers[j]).is_stale) ==> bid == 0 && ask
            == 0x7fff_ffff_ffff_ffff,
        bid > 0 ==> exists|j: int|
            0 <= j < n && !(#[trigger] markers[j]).is_stale && markers[j].bid_price == bid,
        ask < 0x7fff_ffff_ffff_ffff ==> exists|j: int|
            0 <= j < n && !(#[trigger] markers[j]).is_stale && markers[j].ask_price == ask,
{
}

} // verus!
