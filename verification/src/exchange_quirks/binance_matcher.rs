//! Matching engine emulation: price-time priority and self-trade prevention.

use vstd::prelude::*;
use crate::fixed::{abs, abs_i64, div_i64, fits_i64, lemma_tdiv_rounds, tdiv};

verus! {

/// Price in fixed-point units.
pub type FixedPrice = i64;

/// Quantity in fixed-point units.
pub type FixedQty = i64;

/// Time in ticks.
pub type TscTicks = u64;

/// Maximum order book depth tracked.
pub const MAX_BOOK_DEPTH: usize = 100;

/// Self-trade prevention modes.
#[derive(Debug, Clone, Copy, PartialEq, Eq, Structural)]
pub enum StpMode {
    Disabled,
    CancelNewest,
    CancelOldest,
    CancelBoth,
}

/// Order side.
#[derive(Debug, Clone, Copy, PartialEq, Eq, Structural)]
pub enum Side {
    Buy,
    Sell,
}

impl Side {
    /// Number of the side in an order.
    pub open spec fn spec_code(self) -> u8 {
        match self {
            Side::Buy => 0,
            Side::Sell => 1,
        }
    }

    /// Number of the side in an order.
    pub fn code(self) -> (r: u8)
        ensures
            r == self.spec_code(),
    {
        match self {
            Side::Buy => 0,
            Side::Sell => 1,
        }
    }
}

/// Order.
#[derive(Debug)]
pub struct BinanceOrder {
    /// Order ID.
    pub order_id: u64,
    /// Client order ID.
    pub client_order_id: u64,
    /// Limit price.
    pub price: FixedPrice,
    /// Quantity.
    pub qty: FixedQty,
    /// Quantity filled.
    pub filled_qty: FixedQty,
    /// Time of creation.
    pub timestamp_ticks: TscTicks,
    /// 0 = buy, else sell.
    pub side: u8,
    /// Whether the order is a maker order.
    pub is_maker: u8,
}

impl BinanceOrder {
    /// Unfilled order, created at time `now`.
    pub fn new(
        order_id: u64,
        client_order_id: u64,
        price: FixedPrice,
        qty: FixedQty,
        side: Side,
        now: TscTicks,
    ) -> (r: Self)
        ensures
            r == (BinanceOrder {
                order_id,
                client_order_id,
                price,
                qty,
                filled_qty: 0,
                timestamp_ticks: now,
                side: side.spec_code(),
                is_maker: 0,
            }),
    {
        BinanceOrder {
            order_id,
            client_order_id,
            price,
            qty,
            filled_qty: 0,
            timestamp_ticks: now,
            side: side.code(),
            is_maker: 0,
        }
    }

    /// Quantity still to be filled.
    pub fn remaining_qty(&self) -> (r: FixedQty)
        requires
            fits_i64(self.qty - self.filled_qty),
        ensures
            r == self.qty - self.filled_qty,
    {
        self.qty - self.filled_qty
    }

    /// Whether nothing is left to be filled.
    pub fn is_fully_filled(&self) -> (r: bool)
        requires
            fits_i64(self.qty - self.filled_qty),
        ensures
            r == (self.qty - self.filled_qty <= 0),
    {
        self.remaining_qty() <= 0
    }
}

/// Price level in the order book.
#[derive(Debug, Clone, Copy)]
pub struct PriceLevel {
    /// Price; zero marks the level as empty, whatever rests there.
    pub price: FixedPrice,
    /// Quantity that rests at the price.
    pub total_qty: FixedQty,
    /// Orders added.
    pub order_count: u64,
    /// Oldest order.
    pub first_order_id: u64,
    /// Time of the last addition.
    pub last_update_ticks: TscTicks,
}

impl PriceLevel {
    /// Level with every field zero.
    pub open spec fn spec_new() -> Self {
        PriceLevel {
            price: 0,
            total_qty: 0,
            order_count: 0,
            first_order_id: 0,
            last_update_ticks: 0,
        }
    }

    /// Level after an order was added.
    pub open spec fn with_order(self, qty: FixedQty, order_id: u64, now: TscTicks) -> Self {
        PriceLevel {
            price: self.price,
            total_qty: self.total_qty.wrapping_add(qty),
            order_count: self.order_count.wrapping_add(1),
            first_order_id: if self.first_order_id == 0 {
                order_id
            } else {
                self.first_order_id
            },
            last_update_ticks: now,
        }
    }

    /// Level with every field zero.
    pub fn new() -> (r: Self)
        ensures
            r == Self::spec_new(),
    {
        PriceLevel {
            price: 0,
            total_qty: 0,
            order_count: 0,
            first_order_id: 0,
            last_update_ticks: 0,
        }
    }

    /// Set the price.
    pub fn set_price(&mut self, p: FixedPrice)
        ensures
            *final(self) == (PriceLevel { price: p, ..*old(self) }),
    {
        self.price = p;
    }

    /// Add an order at time `now`.
    pub fn add_qty(&mut self, qty: FixedQty, order_id: u64, now: TscTicks)
        ensures
            *final(self) == old(self).with_order(qty, order_id, now),
    {
        self.total_qty = self.total_qty.wrapping_add(qty);
        self.order_count = self.order_count.wrapping_add(1);
        if self.first_order_id == 0 {
            self.first_order_id = order_id;
        }
        self.last_update_ticks = now;
    }

    /// Remove quantity. Gives what is left.
    pub fn remove_qty(&mut self, qty: FixedQty) -> (r: FixedQty)
        requires
            fits_i64(old(self).total_qty - qty),
        ensures
            r == old(self).total_qty - qty,
            *final(self) == (PriceLevel { total_qty: r, ..*old(self) }),
    {
        self.total_qty = self.total_qty - qty;
        self.total_qty
    }
}

/// Whether price `a` comes before price `b` among resting orders of a side:
/// higher bids first, lower asks first.
pub open spec fn ahead(side: Side, a: int, b: int) -> bool {
    match side {
        Side::Buy => a > b,
        Side::Sell => a < b,
    }
}

/// None of the first `n` levels has price zero, which marks a level as empty.
pub open spec fn clear(levels: Seq<PriceLevel>, n: int) -> bool {
    forall|k: int| 0 <= k < n ==> (#[trigger] levels[k]).price != 0
}

/// Levels of a side are in order of priority, no price twice, as far as none is marked
/// as empty; and each has a quantity.
pub open spec fn sorted(levels: Seq<PriceLevel>, side: Side) -> bool {
    &&& forall|i: int, j: int|
        0 <= i < j < levels.len() && clear(levels, j + 1) ==> ahead(
            side,
            (#[trigger] levels[i]).price as int,
            (#[trigger] levels[j]).price as int,
        )
    &&& forall|i: int| 0 <= i < levels.len() ==> (#[trigger] levels[i]).total_qty > 0
}

/// Number of leading levels that come before a price, up to the first one that is marked
/// as empty.
pub open spec fn rank(levels: Seq<PriceLevel>, side: Side, price: int) -> int
    decreases levels.len(),
{
    if levels.len() > 0 && levels[0].price != 0 && ahead(side, levels[0].price as int, price) {
        1 + rank(levels.skip(1), side, price)
    } else {
        0
    }
}

/// A level that an order opens.
pub open spec fn opened(price: FixedPrice, qty: FixedQty, order_id: u64, now: TscTicks) -> PriceLevel {
    (PriceLevel { price, ..PriceLevel::spec_new() }).with_order(qty, order_id, now)
}

/// Levels after an order came to rest: it joins the level of its price, or opens
/// one in its place if the book has room for it. A level that is marked as empty is
/// joined by no order.
pub open spec fn rested(
    levels: Seq<PriceLevel>,
    side: Side,
    price: FixedPrice,
    qty: FixedQty,
    order_id: u64,
    now: TscTicks,
) -> Seq<PriceLevel> {
    let i = rank(levels, side, price as int);
    if i < levels.len() && levels[i].price == price && price != 0 {
        levels.update(i, levels[i].with_order(qty, order_id, now))
    } else if levels.len() < MAX_BOOK_DEPTH {
        levels.insert(i, opened(price, qty, order_id, now))
    } else {
        levels
    }
}

/// Whether an incoming order with a limit trades with a resting order of the
/// other side, `resting` being the side of the latter. At price zero nothing trades.
pub open spec fn crosses(resting: Side, price: int, limit: int) -> bool {
    price != 0 && !ahead(resting, limit, price)
}

/// Quantity that an incoming order takes from the levels of the other side, best
/// price first, as long as its limit allows, and up to the first level that is marked as
/// empty.
pub open spec fn taken(levels: Seq<PriceLevel>, resting: Side, limit: int, qty: int) -> int
    decreases levels.len(),
{
    if qty <= 0 || levels.len() == 0 || !crosses(resting, levels[0].price as int, limit) {
        0
    } else if qty < levels[0].total_qty {
        qty
    } else {
        levels[0].total_qty + taken(levels.skip(1), resting, limit, qty - levels[0].total_qty)
    }
}

/// Levels that are left when an incoming order has taken its quantity.
pub open spec fn left(levels: Seq<PriceLevel>, resting: Side, limit: int, qty: int) -> Seq<
    PriceLevel,
>
    decreases levels.len(),
{
    if qty <= 0 || levels.len() == 0 || !crosses(resting, levels[0].price as int, limit) {
        levels
    } else if qty < levels[0].total_qty {
        levels.update(
            0,
            PriceLevel { total_qty: (levels[0].total_qty - qty) as i64, ..levels[0] },
        )
    } else {
        left(levels.skip(1), resting, limit, qty - levels[0].total_qty)
    }
}

/// Quantity that rests in all levels.
pub open spec fn depth(levels: Seq<PriceLevel>) -> int
    decreases levels.len(),
{
    if levels.len() == 0 {
        0
    } else {
        levels[0].total_qty + depth(levels.skip(1))
    }
}

/// The levels before a rank come before the price and are not marked as empty; the next
/// one does not, or is.
pub proof fn lemma_rank(levels: Seq<PriceLevel>, side: Side, price: int)
    ensures
        0 <= rank(levels, side, price) <= levels.len(),
        forall|j: int|
            0 <= j < rank(levels, side, price) ==> (#[trigger] levels[j]).price != 0 && ahead(
                side,
                levels[j].price as int,
                price,
            ),
        rank(levels, side, price) < levels.len() ==> {
            let next = levels[rank(levels, side, price)];
            next.price == 0 || !ahead(side, next.price as int, price)
        },
    decreases levels.len(),
{
    if levels.len() > 0 && levels[0].price != 0 && ahead(side, levels[0].price as int, price) {
        let t = levels.skip(1);
        lemma_rank(t, side, price);
        let r = rank(t, side, price);
        assert forall|j: int| 0 <= j < r + 1 implies (#[trigger] levels[j]).price != 0 && ahead(
            side,
            levels[j].price as int,
            price,
        ) by {
            if j > 0 {
                assert(levels[j] == t[j - 1]);
            }
        }
        assert(r < t.len() ==> levels[r + 1] == t[r]);
    }
}

/// A resting order keeps the levels in order of priority.
#[verifier::spinoff_prover]
#[verifier::rlimit(40)]
pub proof fn lemma_rested_sorted(
    levels: Seq<PriceLevel>,
    side: Side,
    price: FixedPrice,
    qty: FixedQty,
    order_id: u64,
    now: TscTicks,
)
    requires
        sorted(levels, side),
        qty > 0,
        forall|i: int|
            0 <= i < levels.len() && (#[trigger] levels[i]).price == price ==> levels[i].total_qty
                + qty <= i64::MAX,
    ensures
        sorted(rested(levels, side, price, qty, order_id, now), side),
{
    lemma_rank(levels, side, price as int);
    let i = rank(levels, side, price as int);
    let t = rested(levels, side, price, qty, order_id, now);
    if i < levels.len() && levels[i].price == price && price != 0 {
        assert forall|a: int| 0 <= a < t.len() implies (#[trigger] t[a]).total_qty > 0 && t[a].price
            == levels[a].price by {
            if a != i {
                assert(t[a] == levels[a]);
            }
        }
        assert forall|a: int, b: int| 0 <= a < b < t.len() && clear(t, b + 1) implies ahead(
            side,
            (#[trigger] t[a]).price as int,
            (#[trigger] t[b]).price as int,
        ) by {
            assert forall|k: int| 0 <= k < b + 1 implies (#[trigger] levels[k]).price != 0 by {
                assert(t[k].price == levels[k].price);
            }
        }
    } else if levels.len() < MAX_BOOK_DEPTH {
        assert forall|a: int, b: int| 0 <= a < b < t.len() && clear(t, b + 1) implies ahead(
            side,
            (#[trigger] t[a]).price as int,
            (#[trigger] t[b]).price as int,
        ) by {
            let la = if a < i {
                a
            } else {
                a - 1
            };
            let lb = if b < i {
                b
            } else {
                b - 1
            };
            if a != i {
                assert(t[a] == levels[la]);
            }
            if b != i {
                assert(t[b] == levels[lb]);
                assert forall|k: int| 0 <= k < lb + 1 implies (#[trigger] levels[k]).price != 0 by {
                    if k < i {
                        assert(t[k] == levels[k]);
                    } else {
                        assert(t[k + 1] == levels[k]);
                    }
                }
                if a <= i < b {
                    assert(t[i + 1] == levels[i]);
                    assert(ahead(side, price as int, levels[i].price as int));
                }
            }
        }
        assert forall|a: int| 0 <= a < t.len() implies (#[trigger] t[a]).total_qty > 0 by {
            if a < i {
                assert(t[a] == levels[a]);
            } else if a > i {
                assert(t[a] == levels[a - 1]);
            }
        }
    }
}

/// Dropping the best level keeps the order of the others.
#[verifier::spinoff_prover]
#[verifier::rlimit(40)]
proof fn lemma_skip_sorted(levels: Seq<PriceLevel>, side: Side)
    requires
        sorted(levels, side),
        levels.len() > 0,
        levels[0].price != 0,
    ensures
        sorted(levels.skip(1), side),
{
    let t = levels.skip(1);
    assert forall|i: int, j: int| 0 <= i < j < t.len() && clear(t, j + 1) implies ahead(
        side,
        (#[trigger] t[i]).price as int,
        (#[trigger] t[j]).price as int,
    ) by {
        assert(t[i] == levels[i + 1] && t[j] == levels[j + 1]);
        assert forall|k: int| 0 <= k < j + 2 implies (#[trigger] levels[k]).price != 0 by {
            if k > 0 {
                assert(t[k - 1] == levels[k]);
            }
        }
    }
    assert forall|i: int| 0 <= i < t.len() implies (#[trigger] t[i]).total_qty > 0 by {
        assert(t[i] == levels[i + 1]);
    }
}

/// Matching takes no more than was asked for, takes it out of the book, and
/// stops only when it has all, or the next level is not within the limit or marked as
/// empty. The levels stay in order of priority.
pub proof fn lemma_match(levels: Seq<PriceLevel>, resting: Side, limit: int, qty: int)
    requires
        sorted(levels, resting),
    ensures
        0 <= taken(levels, resting, limit, qty),
        taken(levels, resting, limit, qty) <= if qty > 0 {
            qty
        } else {
            0
        },
        depth(left(levels, resting, limit, qty)) == depth(levels) - taken(
            levels,
            resting,
            limit,
            qty,
        ),
        left(levels, resting, limit, qty).len() <= levels.len(),
        sorted(left(levels, resting, limit, qty), resting),
        taken(levels, resting, limit, qty) < qty ==> {
            let t = left(levels, resting, limit, qty);
            t.len() == 0 || !crosses(resting, t[0].price as int, limit)
        },
    decreases levels.len(),
{
    if qty <= 0 || levels.len() == 0 || !crosses(resting, levels[0].price as int, limit) {
    } else if qty < levels[0].total_qty {
        let t = left(levels, resting, limit, qty);
        assert(t.skip(1) =~= levels.skip(1));
        assert forall|a: int| 0 <= a < t.len() implies (#[trigger] t[a]).total_qty > 0 && t[a].price
            == levels[a].price by {
            if a != 0 {
                assert(t[a] == levels[a]);
            }
        }
        assert forall|a: int, b: int| 0 <= a < b < t.len() && clear(t, b + 1) implies ahead(
            resting,
            (#[trigger] t[a]).price as int,
            (#[trigger] t[b]).price as int,
        ) by {
            assert forall|k: int| 0 <= k < b + 1 implies (#[trigger] levels[k]).price != 0 by {
                assert(t[k].price == levels[k].price);
            }
        }
    } else {
        lemma_skip_sorted(levels, resting);
        lemma_match(levels.skip(1), resting, limit, qty - levels[0].total_qty);
    }
}

/// The best price of a side, or `none` if nothing rests.
pub open spec fn best(levels: Seq<PriceLevel>, none: i64) -> i64 {
    if levels.len() == 0 {
        none
    } else {
        levels[0].price
    }
}

/// Whether price `a` comes before price `b` among resting orders of a side.
fn is_ahead(side: Side, a: FixedPrice, b: FixedPrice) -> (r: bool)
    ensures
        r == ahead(side, a as int, b as int),
{
    match side {
        Side::Buy => a > b,
        Side::Sell => a < b,
    }
}

/// Let an order come to rest among the levels of its side.
fn rest(
    levels: &mut Vec<PriceLevel>,
    side: Side,
    price: FixedPrice,
    qty: FixedQty,
    order_id: u64,
    now: TscTicks,
)
    requires
        old(levels)@.len() <= MAX_BOOK_DEPTH,
    ensures
        final(levels)@ == rested(old(levels)@, side, price, qty, order_id, now),
{
    proof {
        lemma_rank(levels@, side, price as int);
    }
    let ghost all = levels@;
    let ghost r = rank(all, side, price as int);
    let mut idx: usize = 0;
    while idx < levels.len() && levels[idx].price != 0 && is_ahead(side, levels[idx].price, price)
        invariant
            levels@ == all,
            r == rank(all, side, price as int),
            0 <= idx <= r <= all.len(),
            forall|j: int|
                0 <= j < r ==> (#[trigger] all[j]).price != 0 && ahead(
                    side,
                    all[j].price as int,
                    price as int,
                ),
            r < all.len() ==> all[r].price == 0 || !ahead(side, all[r].price as int, price as int),
        decreases all.len() - idx,
    {
        idx = idx + 1;
    }
    assert(idx == r);
    if idx < levels.len() && levels[idx].price == price && price != 0 {
        let mut level = levels[idx];
        level.add_qty(qty, order_id, now);
        levels.set(idx, level);
    } else if levels.len() < MAX_BOOK_DEPTH {
        let mut level = PriceLevel::new();
        level.set_price(price);
        level.add_qty(qty, order_id, now);
        levels.insert(idx, level);
    }
}

/// Take quantity from the levels of a side, best price first, within a limit.
fn take(levels: &mut Vec<PriceLevel>, resting: Side, limit: FixedPrice, qty: FixedQty) -> (r:
    FixedQty)
    requires
        sorted(old(levels)@, resting),
    ensures
        r == taken(old(levels)@, resting, limit as int, qty as int),
        final(levels)@ == left(old(levels)@, resting, limit as int, qty as int),
{
    let ghost all = levels@;
    let mut remaining: i64 = qty;
    let mut filled: i64 = 0;
    while remaining > 0 && levels.len() > 0 && levels[0].price != 0 && !is_ahead(
        resting,
        limit,
        levels[0].price,
    )
        invariant
            sorted(levels@, resting),
            0 <= filled,
            filled + remaining == if qty > 0 || filled > 0 {
                qty as int
            } else {
                remaining as int
            },
            filled == 0 ==> remaining == qty,
            taken(all, resting, limit as int, qty as int) == filled + taken(
                levels@,
                resting,
                limit as int,
                remaining as int,
            ),
            left(all, resting, limit as int, qty as int) == left(
                levels@,
                resting,
                limit as int,
                remaining as int,
            ),
        decreases levels@.len(), remaining,
    {
        proof {
            lemma_skip_sorted(levels@, resting);
            lemma_match(levels@, resting, limit as int, remaining as int);
        }
        let avail: i64 = levels[0].total_qty;
        let ghost before = levels@;
        if remaining < avail {
            let mut level = levels[0];
            let _ = level.remove_qty(remaining);
            levels.set(0, level);
            filled = filled + remaining;
            assert(levels@ == left(before, resting, limit as int, remaining as int));
            remaining = 0;
        } else {
            let _ = levels.remove(0);
            assert(levels@ =~= before.skip(1));
            filled = filled + avail;
            remaining = remaining - avail;
        }
    }
    filled
}

/// Order book with price-time priority.
#[derive(Debug)]
pub struct BinanceOrderBook {
    /// Bids, highest first.
    pub bids: Vec<PriceLevel>,
    /// Asks, lowest first.
    pub asks: Vec<PriceLevel>,
    /// Bid levels.
    pub bid_count: u64,
    /// Ask levels.
    pub ask_count: u64,
    /// Best bid; zero without bids.
    pub best_bid_price: FixedPrice,
    /// Best ask; the largest number without asks.
    pub best_ask_price: FixedPrice,
    /// Limit of the last order that traded.
    pub last_trade_price: FixedPrice,
    /// Orders added.
    pub sequence_num: u64,
}

impl BinanceOrderBook {
    /// Both sides are in order of priority, within the depth, and the counts and
    /// best prices are theirs.
    pub open spec fn wf(&self) -> bool {
        &&& sorted(self.bids@, Side::Buy)
        &&& sorted(self.asks@, Side::Sell)
        &&& self.bids@.len() <= MAX_BOOK_DEPTH
        &&& self.asks@.len() <= MAX_BOOK_DEPTH
        &&& self.bid_count == self.bids@.len()
        &&& self.ask_count == self.asks@.len()
        &&& self.best_bid_price == best(self.bids@, 0)
        &&& self.best_ask_price == best(self.asks@, i64::MAX)
    }

    /// Empty book.
    pub fn new() -> (r: Self)
        ensures
            r.wf(),
            r.bids@ == Seq::<PriceLevel>::empty(),
            r.asks@ == Seq::<PriceLevel>::empty(),
            r.last_trade_price == 0,
            r.sequence_num == 0,
    {
        BinanceOrderBook {
            bids: Vec::new(),
            asks: Vec::new(),
            bid_count: 0,
            ask_count: 0,
            best_bid_price: 0,
            best_ask_price: i64::MAX,
            last_trade_price: 0,
            sequence_num: 0,
        }
    }

    /// There is room for more quantity at a price.
    pub open spec fn level_fits(levels: Seq<PriceLevel>, price: FixedPrice, qty: int) -> bool {
        forall|i: int|
            0 <= i < levels.len() && (#[trigger] levels[i]).price == price ==> levels[i].total_qty
                + qty <= i64::MAX
    }

    /// Add an order to the book at time `now`. An order with nothing left to fill
    /// is refused.
    pub fn add_order(&mut self, order: &BinanceOrder, now: TscTicks) -> (r: bool)
        requires
            old(self).wf(),
            fits_i64(order.qty - order.filled_qty),
            order.side == 0 ==> Self::level_fits(
                old(self).bids@,
                order.price,
                order.qty - order.filled_qty,
            ),
            order.side != 0 ==> Self::level_fits(
                old(self).asks@,
                order.price,
                order.qty - order.filled_qty,
            ),
        ensures
            final(self).wf(),
            r == (order.qty - order.filled_qty > 0),
            !r ==> *final(self) == *old(self),
            r ==> {
                let qty = (order.qty - order.filled_qty) as i64;
                &&& final(self).bids@ == if order.side == 0 {
                    rested(old(self).bids@, Side::Buy, order.price, qty, order.order_id, now)
                } else {
                    old(self).bids@
                }
                &&& final(self).asks@ == if order.side == 0 {
                    old(self).asks@
                } else {
                    rested(old(self).asks@, Side::Sell, order.price, qty, order.order_id, now)
                }
                &&& final(self).last_trade_price == old(self).last_trade_price
                &&& final(self).sequence_num == old(self).sequence_num.wrapping_add(1)
            },
    {
        let qty: i64 = order.remaining_qty();
        if qty <= 0 {
            return false;
        }
        self.sequence_num = self.sequence_num.wrapping_add(1);
        if order.side == Side::Buy.code() {
            self.insert_bid(order.price, qty, order.order_id, now);
        } else {
            self.insert_ask(order.price, qty, order.order_id, now);
        }
        true
    }

    /// Let an order come to rest among the bids.
    fn insert_bid(&mut self, price: FixedPrice, qty: FixedQty, order_id: u64, now: TscTicks)
        requires
            old(self).wf(),
            qty > 0,
            Self::level_fits(old(self).bids@, price, qty as int),
        ensures
            final(self).wf(),
            final(self).bids@ == rested(old(self).bids@, Side::Buy, price, qty, order_id, now),
            *final(self) == (BinanceOrderBook {
                bids: final(self).bids,
                bid_count: final(self).bid_count,
                best_bid_price: final(self).best_bid_price,
                ..*old(self)
            }),
    {
        proof {
            lemma_rested_sorted(self.bids@, Side::Buy, price, qty, order_id, now);
            lemma_rank(self.bids@, Side::Buy, price as int);
        }
        rest(&mut self.bids, Side::Buy, price, qty, order_id, now);
        self.bid_count = self.bids.len() as u64;
        self.best_bid_price = if self.bids.len() > 0 {
            self.bids[0].price
        } else {
            0
        };
    }

    /// Let an order come to rest among the asks.
    fn insert_ask(&mut self, price: FixedPrice, qty: FixedQty, order_id: u64, now: TscTicks)
        requires
            old(self).wf(),
            qty > 0,
            Self::level_fits(old(self).asks@, price, qty as int),
        ensures
            final(self).wf(),
            final(self).asks@ == rested(old(self).asks@, Side::Sell, price, qty, order_id, now),
            *final(self) == (BinanceOrderBook {
                asks: final(self).asks,
                ask_count: final(self).ask_count,
                best_ask_price: final(self).best_ask_price,
                ..*old(self)
            }),
    {
        proof {
            lemma_rested_sorted(self.asks@, Side::Sell, price, qty, order_id, now);
            lemma_rank(self.asks@, Side::Sell, price as int);
        }
        rest(&mut self.asks, Side::Sell, price, qty, order_id, now);
        self.ask_count = self.asks.len() as u64;
        self.best_ask_price = if self.asks.len() > 0 {
            self.asks[0].price
        } else {
            i64::MAX
        };
    }

    /// Match an incoming order against the book. Gives the quantity filled.
    pub fn match_order(&mut self, side: Side, qty: FixedQty, price: FixedPrice) -> (r: FixedQty)
        requires
            old(self).wf(),
        ensures
            final(self).wf(),
            r == match side {
                Side::Buy => taken(old(self).asks@, Side::Sell, price as int, qty as int),
                Side::Sell => taken(old(self).bids@, Side::Buy, price as int, qty as int),
            },
            final(self).asks@ == match side {
                Side::Buy => left(old(self).asks@, Side::Sell, price as int, qty as int),
                Side::Sell => old(self).asks@,
            },
            final(self).bids@ == match side {
                Side::Buy => old(self).bids@,
                Side::Sell => left(old(self).bids@, Side::Buy, price as int, qty as int),
            },
            final(self).last_trade_price == if r > 0 {
                price
            } else {
                old(self).last_trade_price
            },
            final(self).sequence_num == old(self).sequence_num,
            0 <= r,
            r > 0 ==> r <= qty,
            (r > 0) == (qty > 0 && match side {
                Side::Buy => old(self).asks@.len() > 0 && old(self).asks@[0].price != 0
                    && old(self).asks@[0].price <= price,
                Side::Sell => old(self).bids@.len() > 0 && old(self).bids@[0].price != 0
                    && old(self).bids@[0].price >= price,
            }),
    {
        proof {
            lemma_buy_takes_asks_at_or_below(self.asks@, price as int, qty as int);
            lemma_sell_takes_bids_at_or_above(self.bids@, price as int, qty as int);
        }
        let filled: i64 = match side {
            Side::Buy => {
                proof {
                    lemma_match(self.asks@, Side::Sell, price as int, qty as int);
                }
                let filled: i64 = take(&mut self.asks, Side::Sell, price, qty);
                self.ask_count = self.asks.len() as u64;
                self.best_ask_price = if self.asks.len() > 0 {
                    self.asks[0].price
                } else {
                    i64::MAX
                };
                filled
            },
            Side::Sell => {
                proof {
                    lemma_match(self.bids@, Side::Buy, price as int, qty as int);
                }
                let filled: i64 = take(&mut self.bids, Side::Buy, price, qty);
                self.bid_count = self.bids.len() as u64;
                self.best_bid_price = if self.bids.len() > 0 {
                    self.bids[0].price
                } else {
                    0
                };
                filled
            },
        };
        if filled > 0 {
            self.last_trade_price = price;
        }
        filled
    }

    /// Difference of the best prices; the largest number if a side is empty.
    pub fn get_spread(&self) -> (r: FixedPrice)
        requires
            self.best_ask_price != i64::MAX && self.best_bid_price != 0 ==> fits_i64(
                self.best_ask_price - self.best_bid_price,
            ),
        ensures
            r == if self.best_ask_price == i64::MAX || self.best_bid_price == 0 {
                i64::MAX as int
            } else {
                self.best_ask_price - self.best_bid_price
            },
    {
        if self.best_ask_price == i64::MAX || self.best_bid_price == 0 {
            return i64::MAX;
        }
        self.best_ask_price - self.best_bid_price
    }
}

/// Self-trade prevention.
#[derive(Debug)]
pub struct StpEngine {
    /// What to do about a self-trade.
    pub mode: StpMode,
    /// Account that is watched.
    pub account_id: u64,
    /// Self-trades prevented.
    pub violation_count: u64,
    /// Time of the last one.
    pub last_violation_ticks: TscTicks,
    /// Nonzero while every order is rejected.
    pub circuit_open: u8,
}

impl StpEngine {
    /// Engine without violations.
    pub fn new(mode: StpMode, account_id: u64) -> (r: Self)
        ensures
            r == (StpEngine {
                mode,
                account_id,
                violation_count: 0,
                last_violation_ticks: 0,
                circuit_open: 0,
            }),
    {
        StpEngine {
            mode,
            account_id,
            violation_count: 0,
            last_violation_ticks: 0,
            circuit_open: 0,
        }
    }

    /// Whether an incoming order would trade with the best resting order.
    pub open spec fn would_trade(side: Side, price: FixedPrice, book: BinanceOrderBook) -> bool {
        match side {
            Side::Buy => book.best_ask_price != i64::MAX && price >= book.best_ask_price,
            Side::Sell => book.best_bid_price != 0 && price <= book.best_bid_price,
        }
    }

    /// Check at time `now` if an order would self-trade. Gives the price to
    /// cancel, zero standing for the resting order; nothing if the order may go
    /// on.
    pub fn check_stp(
        &mut self,
        incoming_side: Side,
        incoming_price: FixedPrice,
        book: &BinanceOrderBook,
        now: TscTicks,
    ) -> (r: Option<FixedPrice>)
        ensures
            ({
                let trade = Self::would_trade(incoming_side, incoming_price, *book);
                let off = old(self).mode == StpMode::Disabled;
                let open = old(self).circuit_open != 0;
                &&& r == if off || !open && !trade {
                    None
                } else if !open && old(self).mode == StpMode::CancelOldest {
                    Some(0i64)
                } else {
                    Some(incoming_price)
                }
                &&& *final(self) == if off || open || !trade {
                    *old(self)
                } else {
                    StpEngine {
                        violation_count: old(self).violation_count.wrapping_add(1),
                        last_violation_ticks: now,
                        ..*old(self)
                    }
                }
            }),
    {
        if self.mode == StpMode::Disabled {
            return None;
        }
        if self.circuit_open != 0 {
            return Some(incoming_price);
        }
        let would_self_trade = match incoming_side {
            Side::Buy => book.best_ask_price != i64::MAX && incoming_price >= book.best_ask_price,
            Side::Sell => book.best_bid_price != 0 && incoming_price <= book.best_bid_price,
        };
        if !would_self_trade {
            return None;
        }
        self.violation_count = self.violation_count.wrapping_add(1);
        self.last_violation_ticks = now;
        match self.mode {
            StpMode::CancelNewest => Some(incoming_price),
            StpMode::CancelOldest => Some(0),
            StpMode::CancelBoth => Some(incoming_price),
            StpMode::Disabled => None,
        }
    }

    /// Close the circuit and forget the violations.
    pub fn reset_circuit(&mut self)
        ensures
            *final(self) == (StpEngine { circuit_open: 0, violation_count: 0, ..*old(self) }),
    {
        self.circuit_open = 0;
        self.violation_count = 0;
    }
}

/// Shadow mode matcher: compares expected with actual fills.
#[derive(Debug)]
pub struct ShadowMatcher {
    /// Nonzero while fills are logged.
    pub enabled: u8,
    /// Expected quantity.
    pub theoretical_fills: FixedQty,
    /// Actual quantity.
    pub actual_fills: FixedQty,
    /// Average price deviation.
    pub avg_fill_price_deviation: FixedPrice,
    /// Samples in the average.
    pub sample_count: u64,
}

impl ShadowMatcher {
    /// Matcher that is switched off.
    pub fn new() -> (r: Self)
        ensures
            r == (ShadowMatcher {
                enabled: 0,
                theoretical_fills: 0,
                actual_fills: 0,
                avg_fill_price_deviation: 0,
                sample_count: 0,
            }),
    {
        ShadowMatcher {
            enabled: 0,
            theoretical_fills: 0,
            actual_fills: 0,
            avg_fill_price_deviation: 0,
            sample_count: 0,
        }
    }

    /// Average after one more deviation.
    pub open spec fn next_average(&self, deviation: int) -> int {
        tdiv(
            self.avg_fill_price_deviation * self.sample_count + deviation,
            self.sample_count + 1,
        )
    }

    /// Log an expected fill, if the matcher is switched on.
    pub fn log_theoretical_fill(
        &mut self,
        qty: FixedQty,
        expected_price: FixedPrice,
        actual_price: FixedPrice,
    )
        requires
            old(self).enabled != 0 ==> {
                &&& fits_i64(expected_price - actual_price)
                &&& expected_price - actual_price > i64::MIN
                &&& old(self).sample_count < i64::MAX
                &&& fits_i64(old(self).avg_fill_price_deviation * old(self).sample_count)
                &&& fits_i64(
                    old(self).avg_fill_price_deviation * old(self).sample_count + abs(
                        expected_price - actual_price,
                    ),
                )
            },
        ensures
            *final(self) == if old(self).enabled == 0 {
                *old(self)
            } else {
                ShadowMatcher {
                    theoretical_fills: old(self).theoretical_fills.wrapping_add(qty),
                    sample_count: (old(self).sample_count + 1) as u64,
                    avg_fill_price_deviation: old(self).next_average(
                        abs(expected_price - actual_price),
                    ) as i64,
                    ..*old(self)
                }
            },
    {
        if self.enabled == 0 {
            return ;
        }
        self.theoretical_fills = self.theoretical_fills.wrapping_add(qty);
        let count: u64 = self.sample_count;
        self.sample_count = count + 1;
        let deviation: i64 = abs_i64(expected_price - actual_price);
        let total: i64 = self.avg_fill_price_deviation * count as i64 + deviation;
        self.avg_fill_price_deviation = div_i64(total, (count + 1) as i64);
    }

    /// Log an actual fill.
    pub fn log_actual_fill(&mut self, qty: FixedQty)
        ensures
            *final(self) == (ShadowMatcher {
                actual_fills: old(self).actual_fills.wrapping_add(qty),
                ..*old(self)
            }),
    {
        self.actual_fills = self.actual_fills.wrapping_add(qty);
    }

    /// Switch the matcher on.
    pub fn enable(&mut self)
        ensures
            *final(self) == (ShadowMatcher { enabled: 1, ..*old(self) }),
    {
        self.enabled = 1;
    }
}

/// Where matching has come to: the levels in front of those left were taken whole, the
/// first one left may have been taken in part, the others were not touched.
proof fn lemma_taken_from_front(levels: Seq<PriceLevel>, resting: Side, limit: int, qty: int)
    ensures
        ({
            let t = left(levels, resting, limit, qty);
            let k = levels.len() - t.len();
            &&& 0 <= k <= levels.len()
            &&& forall|j: int|
                0 <= j < k ==> crosses(resting, (#[trigger] levels[j]).price as int, limit)
            &&& forall|j: int| 1 <= j < t.len() ==> #[trigger] t[j] == levels[k + j]
            &&& t.len() > 0 ==> {
                &&& t[0] == PriceLevel { total_qty: t[0].total_qty, ..levels[k] }
                &&& t[0].total_qty <= levels[k].total_qty
                &&& t[0].total_qty < levels[k].total_qty ==> crosses(
                    resting,
                    levels[k].price as int,
                    limit,
                ) && taken(levels, resting, limit, qty) == qty
            }
            &&& taken(levels, resting, limit, qty) == depth(levels.take(k)) + if t.len() > 0 {
                levels[k].total_qty - t[0].total_qty
            } else {
                0
            }
        }),
    decreases levels.len(),
{
    let t = left(levels, resting, limit, qty);
    if qty <= 0 || levels.len() == 0 || !crosses(resting, levels[0].price as int, limit) {
        assert(levels.take(0) =~= Seq::<PriceLevel>::empty());
    } else if qty < levels[0].total_qty {
        assert(levels.take(0) =~= Seq::<PriceLevel>::empty());
    } else {
        let rest = levels.skip(1);
        let q = qty - levels[0].total_qty;
        lemma_taken_from_front(rest, resting, limit, q);
        let k = rest.len() - t.len();
        assert(levels.take(k + 1).skip(1) =~= rest.take(k));
        assert forall|j: int| 0 <= j < k + 1 implies crosses(
            resting,
            (#[trigger] levels[j]).price as int,
            limit,
        ) by {
            if j > 0 {
                assert(levels[j] == rest[j - 1]);
            }
        }
        assert forall|j: int| 1 <= j < t.len() implies #[trigger] t[j] == levels[k + 1 + j] by {
            assert(levels[k + 1 + j] == rest[k + j]);
        }
        if t.len() > 0 {
            assert(levels[k + 1] == rest[k]);
        }
    }
}

/// The depth of a side is the sum of the quantities of its levels.
pub proof fn lemma_depth(levels: Seq<PriceLevel>, level: PriceLevel)
    ensures
        depth(Seq::<PriceLevel>::empty()) == 0,
        depth(levels.push(level)) == depth(levels) + level.total_qty,
    decreases levels.len(),
{
    if levels.len() > 0 {
        lemma_depth(levels.skip(1), level);
        assert(levels.push(level).skip(1) =~= levels.skip(1).push(level));
    } else {
        assert(levels.push(level).skip(1) =~= levels);
        assert(depth(levels.push(level).skip(1)) == 0);
    }
}

/// A sell with a limit trades with bids at or above its limit, from the best bid down,
/// and with no others: what it fills is what leaves those levels. Something is filled
/// exactly where something is asked for and the best bid is a price at or above the
/// limit; the order is filled in part only where no such bid is left.
pub proof fn lemma_sell_takes_bids_at_or_above(bids: Seq<PriceLevel>, limit: int, qty: int)
    requires
        sorted(bids, Side::Buy),
    ensures
        ({
            let filled = taken(bids, Side::Buy, limit, qty);
            let after = left(bids, Side::Buy, limit, qty);
            let k = bids.len() - after.len();
            &&& 0 <= filled
            &&& filled > 0 ==> filled <= qty
            &&& (filled > 0) == (qty > 0 && bids.len() > 0 && bids[0].price != 0 && bids[0].price
                >= limit)
            &&& 0 <= k <= bids.len()
            &&& forall|j: int|
                0 <= j < k ==> (#[trigger] bids[j]).price != 0 && bids[j].price >= limit
            &&& forall|j: int|
                0 <= j < after.len() && (j > 0 || bids[k].price == 0 || bids[k].price < limit)
                    ==> #[trigger] after[j] == bids[k + j]
            &&& filled == depth(bids.take(k)) + if after.len() > 0 {
                bids[k].total_qty - after[0].total_qty
            } else {
                0
            }
            &&& filled < qty ==> after.len() == 0 || after[0].price == 0 || after[0].price < limit
        }),
{
    lemma_match(bids, Side::Buy, limit, qty);
    lemma_taken_from_front(bids, Side::Buy, limit, qty);
    lemma_fills_when_best_crosses(bids, Side::Buy, limit, qty);
}

/// A buy with a limit trades with asks at or below its limit, from the best ask up, and
/// with no others: what it fills is what leaves those levels. Something is filled exactly
/// where something is asked for and the best ask is a price at or below the limit; the
/// order is filled in part only where no such ask is left.
pub proof fn lemma_buy_takes_asks_at_or_below(asks: Seq<PriceLevel>, limit: int, qty: int)
    requires
        sorted(asks, Side::Sell),
    ensures
        ({
            let filled = taken(asks, Side::Sell, limit, qty);
            let after = left(asks, Side::Sell, limit, qty);
            let k = asks.len() - after.len();
            &&& 0 <= filled
            &&& filled > 0 ==> filled <= qty
            &&& (filled > 0) == (qty > 0 && asks.len() > 0 && asks[0].price != 0 && asks[0].price
                <= limit)
            &&& 0 <= k <= asks.len()
            &&& forall|j: int|
                0 <= j < k ==> (#[trigger] asks[j]).price != 0 && asks[j].price <= limit
            &&& forall|j: int|
                0 <= j < after.len() && (j > 0 || asks[k].price == 0 || asks[k].price > limit)
                    ==> #[trigger] after[j] == asks[k + j]
            &&& filled == depth(asks.take(k)) + if after.len() > 0 {
                asks[k].total_qty - after[0].total_qty
            } else {
                0
            }
            &&& filled < qty ==> after.len() == 0 || after[0].price == 0 || after[0].price > limit
        }),
{
    lemma_match(asks, Side::Sell, limit, qty);
    lemma_taken_from_front(asks, Side::Sell, limit, qty);
    lemma_fills_when_best_crosses(asks, Side::Sell, limit, qty);
}

proof fn lemma_fills_when_best_crosses(levels: Seq<PriceLevel>, resting: Side, limit: int, qty: int)
    requires
        sorted(levels, resting),
    ensures
        (taken(levels, resting, limit, qty) > 0) == (qty > 0 && levels.len() > 0 && crosses(
            resting,
            levels[0].price as int,
            limit,
        )),
{
    if qty > 0 && levels.len() > 0 && crosses(resting, levels[0].price as int, limit) {
        assert(levels[0].total_qty > 0);
        if qty >= levels[0].total_qty {
            lemma_skip_sorted(levels, resting);
            lemma_match(levels.skip(1), resting, limit, qty - levels[0].total_qty);
        }
    }
}

/// As far as no level is marked as empty, each bid is higher than the next one and each
/// ask lower.
pub proof fn lemma_book_in_price_order(book: BinanceOrderBook, i: int, j: int)
    requires
        book.wf(),
        0 <= i < j,
    ensures
        j < book.bids@.len() && (forall|k: int| 0 <= k <= j ==> (#[trigger] book.bids@[k]).price
            != 0) ==> book.bids@[i].price > book.bids@[j].price,
        j < book.asks@.len() && (forall|k: int| 0 <= k <= j ==> (#[trigger] book.asks@[k]).price
            != 0) ==> book.asks@[i].price < book.asks@[j].price,
        book.best_bid_price == if book.bids@.len() > 0 {
            book.bids@[0].price as int
        } else {
            0
        },
        book.best_ask_price == if book.asks@.len() > 0 {
            book.asks@[0].price as int
        } else {
            0x7fff_ffff_ffff_ffff
        },
{
}

/// An order that comes to rest adds its quantity at its price and nowhere else: if a
/// level of that price is met, it grows by the quantity and keeps its oldest order, else
/// a level with just this order is put in; every other level stays as it is. The levels
/// in front of it all have a better price: higher for a bid, lower for an ask.
pub proof fn lemma_rest_adds_at_price(
    levels: Seq<PriceLevel>,
    side: Side,
    price: FixedPrice,
    qty: FixedQty,
    order_id: u64,
    now: TscTicks,
)
    requires
        qty > 0,
        levels.len() < 100,
        forall|i: int|
            0 <= i < levels.len() && (#[trigger] levels[i]).price == price ==> 0
                < levels[i].total_qty && levels[i].total_qty + qty <= i64::MAX,
    ensures
        ({
            let t = rested(levels, side, price, qty, order_id, now);
            let i = rank(levels, side, price as int);
            &&& 0 <= i < t.len()
            &&& t[i].price == price
            &&& t[i].last_update_ticks == now
            &&& forall|j: int|
                0 <= j < i ==> #[trigger] t[j] == levels[j] && match side {
                    Side::Buy => t[j].price > price,
                    Side::Sell => t[j].price < price,
                }
            &&& if t.len() == levels.len() {
                &&& levels[i].price == price
                &&& t[i].total_qty == levels[i].total_qty + qty
                &&& levels[i].first_order_id != 0 ==> t[i].first_order_id
                    == levels[i].first_order_id
                &&& t.skip(i + 1) == levels.skip(i + 1)
            } else {
                &&& t.len() == levels.len() + 1
                &&& t[i].total_qty == qty
                &&& t[i].order_count == 1
                &&& t[i].first_order_id == order_id
                &&& t.skip(i + 1) == levels.skip(i)
            }
        }),
{
    lemma_rank(levels, side, price as int);
    let i = rank(levels, side, price as int);
    let t = rested(levels, side, price, qty, order_id, now);
    if i < levels.len() && levels[i].price == price && price != 0 {
        assert(levels[i].total_qty + qty <= i64::MAX);
        assert(t.skip(i + 1) =~= levels.skip(i + 1));
    } else {
        assert(t[i] == opened(price, qty, order_id, now));
        assert(t.skip(i + 1) =~= levels.skip(i));
    }
}

/// Two orders of one side and price, the second after the first, rest in one level whose
/// oldest order is the first.
pub proof fn lemma_first_come_first(
    side: Side,
    price: FixedPrice,
    first: (FixedQty, u64, TscTicks),
    second: (FixedQty, u64, TscTicks),
)
    requires
        price != 0,
        first.0 > 0,
        second.0 > 0,
        first.0 + second.0 <= i64::MAX,
        first.1 != 0,
    ensures
        ({
            let one = rested(Seq::empty(), side, price, first.0, first.1, first.2);
            let two = rested(one, side, price, second.0, second.1, second.2);
            &&& two.len() == 1
            &&& two[0].price == price
            &&& two[0].total_qty == first.0 + second.0
            &&& two[0].order_count == 2
            &&& two[0].first_order_id == first.1
        }),
{
    let none = Seq::<PriceLevel>::empty();
    let one = rested(none, side, price, first.0, first.1, first.2);
    assert(one =~= seq![opened(price, first.0, first.1, first.2)]);
    lemma_rank(one, side, price as int);
}

/// A self-trade is seen exactly where the order would be filled: at the best ask or above
/// for a buy, at the best bid or below for a sell.
pub proof fn lemma_self_trade_is_a_trade(book: BinanceOrderBook, price: FixedPrice, qty: int)
    requires
        book.wf(),
        qty > 0,
    ensures
        book.best_ask_price != i64::MAX && book.best_ask_price != 0 ==> StpEngine::would_trade(
            Side::Buy,
            price,
            book,
        ) == (taken(book.asks@, Side::Sell, price as int, qty) > 0),
        StpEngine::would_trade(Side::Sell, price, book) == (taken(
            book.bids@,
            Side::Buy,
            price as int,
            qty,
        ) > 0),
        StpEngine::would_trade(Side::Buy, price, book) == (book.best_ask_price
            != 0x7fff_ffff_ffff_ffff && price >= book.best_ask_price),
        StpEngine::would_trade(Side::Sell, price, book) == (book.best_bid_price != 0 && price
            <= book.best_bid_price),
{
    lemma_sell_takes_bids_at_or_above(book.bids@, price as int, qty);
    lemma_buy_takes_asks_at_or_below(book.asks@, price as int, qty);
}

/// The average deviation times the number of samples is the sum of the deviations, but
/// for what rounding drops.
pub proof fn lemma_average_deviation(m: ShadowMatcher, deviation: int)
    requires
        m.avg_fill_price_deviation >= 0,
        deviation >= 0,
    ensures
        ({
            let total = m.avg_fill_price_deviation * m.sample_count + deviation;
            let next = m.next_average(deviation);
            next * (m.sample_count + 1) <= total < (next + 1) * (m.sample_count + 1)
        }),
{
    let n = m.sample_count + 1;
    let total = m.avg_fill_price_deviation * m.sample_count + deviation;
    assert(total >= 0) by (nonlinear_arith)
        requires
            total == m.avg_fill_price_deviation * m.sample_count + deviation,
            m.avg_fill_price_deviation >= 0,
            m.sample_count >= 0,
            deviation >= 0,
    ;
    lemma_tdiv_rounds(total, n);
    let q = tdiv(total, n);
    assert((q + 1) * n == q * n + n) by (nonlinear_arith);
}

} // verus!
