//! Order book replay and slippage and market-impact estimates.
//!
//! A market order walks the book level by level; a limit order is judged by
//! the queue history of its level. Averages are integers rounded toward zero.

use crate::fixed::{
    abs, abs_i64, div_i128, fits_i64, fits_u64, lemma_tdiv_rounds, max, min, saturating_mul_u64,
    tdiv, unsigned_abs_i64,
};
use vstd::prelude::*;

verus! {

/// Queue depth tracked by a typical modeler.
pub const MAX_QUEUE_DEPTH: usize = 1024;

/// Price levels of a typical modeler.
pub const MAX_BOOK_LEVELS: usize = 50;

/// Order book level, padded to one cache line.
#[derive(Clone, Copy, Debug)]
pub struct BookLevel {
    pub price_tick: i64,
    pub bid_size: u64,
    pub ask_size: u64,
    pub bid_queue_pos: u64,
    pub ask_queue_pos: u64,
    pub padding: [u8; 24],
}

/// Level with every field zero.
pub open spec fn blank_level() -> BookLevel {
    BookLevel {
        price_tick: 0,
        bid_size: 0,
        ask_size: 0,
        bid_queue_pos: 0,
        ask_queue_pos: 0,
        padding: vstd::array::spec_array_fill_for_copy_type::<u8, 24>(0u8),
    }
}

impl BookLevel {
    /// Level with every field zero.
    pub fn new() -> (r: Self)
        ensures
            r == blank_level(),
    {
        BookLevel {
            price_tick: 0,
            bid_size: 0,
            ask_size: 0,
            bid_queue_pos: 0,
            ask_queue_pos: 0,
            padding: [0u8; 24],
        }
    }
}

/// Result of a slippage estimate, padded to a cache line.
#[derive(Clone, Copy, Debug)]
pub struct SlippageResult {
    pub expected_price: i64,
    pub actual_price: i64,
    pub slippage_ticks: i64,
    pub slippage_bps: i32,
    pub market_impact_bps: i32,
    /// Scaled by 10000.
    pub fill_probability: u32,
    pub estimated_latency_ns: u64,
    pub padding: [u8; 20],
}

/// Result of an order that nothing is known about: a certain fill, no
/// slippage.
pub open spec fn blank_slippage() -> SlippageResult {
    SlippageResult {
        expected_price: 0,
        actual_price: 0,
        slippage_ticks: 0,
        slippage_bps: 0,
        market_impact_bps: 0,
        fill_probability: 10000,
        estimated_latency_ns: 0,
        padding: vstd::array::spec_array_fill_for_copy_type::<u8, 20>(0u8),
    }
}

impl SlippageResult {
    /// Certain fill without slippage.
    pub fn new() -> (r: Self)
        ensures
            r == blank_slippage(),
    {
        SlippageResult {
            expected_price: 0,
            actual_price: 0,
            slippage_ticks: 0,
            slippage_bps: 0,
            market_impact_bps: 0,
            fill_probability: 10000,
            estimated_latency_ns: 0,
            padding: [0u8; 20],
        }
    }
}

/// Circular buffer of queue positions over `N` slots, with a running sum over
/// the slots.
pub struct QueueBuffer<const N: usize> {
    pub data: [i64; N],
    /// Number of values pushed.
    pub head: u64,
    /// Number of values popped.
    pub tail: u64,
    /// Sum over the slots.
    pub sum: i64,
}

impl<const N: usize> QueueBuffer<N> {
    /// The running sum is the sum over the slots, and nothing was popped that
    /// was not pushed.
    pub open spec fn wf(&self) -> bool {
        &&& self.tail <= self.head
        &&& self.sum == crate::fixed::seq_sum(self.data@)
    }

    /// Slot that the next pushed value goes to.
    pub open spec fn head_slot(&self) -> int {
        self.head as int % N as int
    }

    /// A push is refused: the place behind the next one, counted within a round, is the
    /// number of values popped.
    pub open spec fn is_full(&self) -> bool {
        (self.head + 1) % (N as int) == self.tail
    }

    /// Sum over the slots for each value that was pushed and not popped; zero if there is
    /// none.
    pub open spec fn avg(&self) -> int {
        if self.head == self.tail {
            0
        } else {
            tdiv(self.sum as int, self.head - self.tail)
        }
    }

    /// A push of `value` computes no number out of range.
    pub open spec fn can_push(&self, value: i64) -> bool {
        &&& self.head < u64::MAX
        &&& !self.is_full() ==> fits_i64(self.sum - self.data@[self.head_slot()]) && fits_i64(
            self.sum - self.data@[self.head_slot()] + value,
        )
    }

    /// Buffer after `value` was pushed.
    pub open spec fn pushed(&self, value: i64, after: &Self) -> bool {
        if self.is_full() {
            *after == *self
        } else {
            &&& after.data@ == self.data@.update(self.head_slot(), value)
            &&& after.head == self.head + 1
            &&& after.tail == self.tail
            &&& after.sum == self.sum - self.data@[self.head_slot()] + value
        }
    }

    /// Empty buffer.
    pub fn new() -> (r: Self)
        ensures
            r.wf(),
            r.data@ == Seq::new(N as nat, |i: int| 0i64),
            r.head == 0,
            r.tail == 0,
            r.sum == 0,
    {
        let r = QueueBuffer { data: [0i64; N], head: 0, tail: 0, sum: 0 };
        assert(r.data@ =~= Seq::new(N as nat, |i: int| 0i64));
        proof {
            crate::fixed::lemma_sum_zeros(r.data@);
        }
        r
    }

    /// Push a value; a full buffer refuses it.
    pub fn push(&mut self, value: i64) -> (r: bool)
        requires
            N > 0,
            old(self).wf(),
            old(self).can_push(value),
        ensures
            final(self).wf(),
            r == !old(self).is_full(),
            old(self).pushed(value, final(self)),
    {
        if (self.head + 1) % (N as u64) == self.tail {
            return false;
        }
        let idx: usize = (self.head % (N as u64)) as usize;
        let old_value: i64 = self.data[idx];
        proof {
            crate::fixed::lemma_sum_update(self.data@, idx as int, value);
        }
        self.data[idx] = value;
        self.sum = self.sum - old_value + value;
        self.head = self.head + 1;
        true
    }

    /// Pop the value pushed first. Its slot keeps the value until it is
    /// overwritten.
    pub fn pop(&mut self) -> (r: Option<i64>)
        requires
            N > 0,
            old(self).wf(),
        ensures
            final(self).wf(),
            r is Some <==> old(self).tail != old(self).head,
            r matches Some(v) ==> v == old(self).data@[old(self).tail as int % N as int],
            *final(self) == if r is Some {
                QueueBuffer { tail: (old(self).tail + 1) as u64, ..*old(self) }
            } else {
                *old(self)
            },
    {
        if self.tail == self.head {
            return None;
        }
        let idx: usize = (self.tail % (N as u64)) as usize;
        let value: i64 = self.data[idx];
        self.tail = self.tail + 1;
        Some(value)
    }

    /// Average, rounded toward zero.
    pub fn average(&self) -> (r: i64)
        requires
            self.wf(),
        ensures
            r == self.avg(),
    {
        let len: u64 = self.head - self.tail;
        if len < 1 {
            return 0;
        }
        proof {
            crate::fixed::lemma_tdiv_bound(self.sum as int, len as int);
        }
        div_i128(self.sum as i128, len as i128) as i64
    }

    /// Number of values pushed and not popped.
    pub fn len(&self) -> (r: usize)
        requires
            self.wf(),
        ensures
            r == (self.head - self.tail) as u64 as usize,
    {
        (self.head - self.tail) as usize
    }
}

/// Outcome of walking the book: units filled and what they cost.
#[verifier::ext_equal]
pub struct Walk {
    pub filled: int,
    pub cost: int,
}

/// Size that level `level` offers to an order.
pub open spec fn available(level: BookLevel, is_buy: bool) -> int {
    if is_buy {
        level.ask_size as int
    } else {
        level.bid_size as int
    }
}

/// Walk from level `idx` with `remaining` units to fill: upward for a buy,
/// downward for a sell, never using level zero.
pub open spec fn walk(book: Seq<BookLevel>, idx: int, remaining: int, is_buy: bool) -> Walk
    decreases
            if is_buy {
                book.len() - idx
            } else {
                idx
            },
{
    if remaining > 0 && 0 < idx < book.len() {
        let fill = min(remaining, available(book[idx], is_buy));
        let rest = walk(
            book,
            if is_buy {
                idx + 1
            } else {
                idx - 1
            },
            remaining - fill,
            is_buy,
        );
        Walk { filled: fill + rest.filled, cost: fill * book[idx].price_tick + rest.cost }
    } else {
        Walk { filled: 0, cost: 0 }
    }
}

/// A walk fills no more than it was asked to.
pub proof fn lemma_walk_bound(book: Seq<BookLevel>, idx: int, remaining: int, is_buy: bool)
    requires
        remaining >= 0,
    ensures
        0 <= walk(book, idx, remaining, is_buy).filled <= remaining,
    decreases
            if is_buy {
                book.len() - idx
            } else {
                idx
            },
{
    if remaining > 0 && 0 < idx < book.len() {
        let fill = min(remaining, available(book[idx], is_buy));
        let next = if is_buy {
            idx + 1
        } else {
            idx - 1
        };
        lemma_walk_bound(book, next, remaining - fill, is_buy);
    }
}

/// Prices from level `start` on rise, the first one being no less than zero.
pub open spec fn ascending_from(book: Seq<BookLevel>, start: int) -> bool {
    &&& forall|i: int, j: int|
        start <= i <= j < book.len() ==> (#[trigger] book[i]).price_tick <= (
        #[trigger] book[j]).price_tick
    &&& start < book.len() ==> book[start].price_tick >= 0
}

/// A buy costs at least the first price for each unit.
proof fn lemma_cost_floor(book: Seq<BookLevel>, idx: int, remaining: int, price: int)
    requires
        0 < idx,
        remaining >= 0,
        forall|i: int| idx <= i < book.len() ==> price <= (#[trigger] book[i]).price_tick,
    ensures
        walk(book, idx, remaining, true).cost >= walk(book, idx, remaining, true).filled * price,
        walk(book, idx, remaining, true).filled >= 0,
    decreases book.len() - idx,
{
    if remaining > 0 && idx < book.len() {
        let fill = min(remaining, available(book[idx], true));
        lemma_cost_floor(book, idx + 1, remaining - fill, price);
        let rest = walk(book, idx + 1, remaining - fill, true);
        let tick = book[idx].price_tick as int;
        assert(fill * tick + rest.cost >= (fill + rest.filled) * price) by (nonlinear_arith)
            requires
                fill >= 0,
                price <= tick,
                rest.cost >= rest.filled * price,
        ;
    } else {
        assert(0 * price == 0) by (nonlinear_arith);
    }
}

/// A larger buy adds units, each of which costs at least `m`, where `m` is no less than
/// what a unit of the smaller one costs.
#[verifier::spinoff_prover]
#[verifier::rlimit(40)]
proof fn lemma_larger_buy(book: Seq<BookLevel>, idx: int, small: int, large: int) -> (m: int)
    requires
        0 < idx < book.len(),
        ascending_from(book, idx),
        0 <= small <= large,
    ensures
        ({
            let a = walk(book, idx, small, true);
            let b = walk(book, idx, large, true);
            &&& book[idx].price_tick <= m
            &&& 0 <= a.filled <= b.filled
            &&& a.cost <= a.filled * m
            &&& b.cost - a.cost >= (b.filled - a.filled) * m
        }),
    decreases book.len() - idx,
{
    let tick = book[idx].price_tick as int;
    let avail = available(book[idx], true);
    let a = walk(book, idx, small, true);
    let b = walk(book, idx, large, true);
    if small <= avail {
        lemma_cost_floor(book, idx, large, tick);
        if large > 0 {
            let fill = min(large, avail);
            lemma_cost_floor(book, idx + 1, large - fill, tick);
            assert(walk(book, idx + 1, 0, true) == (Walk { filled: 0, cost: 0 }));
            assert(a.filled == small && a.cost == small * tick);
            assert(b.cost - small * tick >= (b.filled - small) * tick) by (nonlinear_arith)
                requires
                    b.cost >= b.filled * tick,
            ;
        }
        tick
    } else {
        let rest_a = walk(book, idx + 1, small - avail, true);
        let rest_b = walk(book, idx + 1, large - avail, true);
        let m = if idx + 1 < book.len() {
            assert(book[idx].price_tick <= book[idx + 1].price_tick);
            lemma_larger_buy(book, idx + 1, small - avail, large - avail)
        } else {
            tick
        };
        assert(avail * tick + rest_a.cost <= (avail + rest_a.filled) * m) by (nonlinear_arith)
            requires
                avail >= 0,
                tick <= m,
                rest_a.cost <= rest_a.filled * m,
        ;
        m
    }
}

/// The average price of a buy is no less than the first price, and that of a larger buy
/// no less than that of a smaller one.
pub proof fn lemma_average_rises(book: Seq<BookLevel>, idx: int, small: int, large: int)
    requires
        0 < idx < book.len(),
        ascending_from(book, idx),
        0 <= small <= large,
    ensures
        ({
            let a = walk(book, idx, small, true);
            let b = walk(book, idx, large, true);
            &&& a.filled <= b.filled
            &&& a.filled > 0 ==> book[idx].price_tick <= tdiv(a.cost, a.filled) <= tdiv(
                b.cost,
                b.filled,
            )
            &&& b.filled > 0 ==> book[idx].price_tick <= tdiv(b.cost, b.filled)
        }),
{
    let a = walk(book, idx, small, true);
    let b = walk(book, idx, large, true);
    let p = book[idx].price_tick as int;
    let m = lemma_larger_buy(book, idx, small, large);
    lemma_cost_floor(book, idx, small, p);
    lemma_cost_floor(book, idx, large, p);
    if b.filled > 0 {
        lemma_quotient_floor(b.cost, b.filled, p);
    }
    if a.filled > 0 {
        lemma_quotient_floor(a.cost, a.filled, p);
        let q = a.cost / a.filled;
        assert(q * b.filled <= b.cost) by (nonlinear_arith)
            requires
                q == a.cost / a.filled,
                0 < a.filled <= b.filled,
                a.cost <= a.filled * m,
                b.cost - a.cost >= (b.filled - a.filled) * m,
        {
            assert(q * a.filled <= a.cost);
            assert(q <= m);
            assert((b.filled - a.filled) * q <= (b.filled - a.filled) * m);
        }
        lemma_quotient_floor(b.cost, b.filled, q);
    }
}

/// A quotient is no less than what fits.
proof fn lemma_quotient_floor(cost: int, filled: int, price: int)
    requires
        filled > 0,
        price >= 0,
        cost >= filled * price,
    ensures
        tdiv(cost, filled) >= price,
        cost >= 0,
        tdiv(cost, filled) == cost / filled,
{
    assert(cost >= 0) by (nonlinear_arith)
        requires
            filled > 0,
            price >= 0,
            cost >= filled * price,
    ;
    assert(cost / filled >= price) by (nonlinear_arith)
        requires
            filled > 0,
            cost >= filled * price,
    ;
}

/// A larger buy never slips less, and no buy gets a better price than the best ask: this
/// holds of every book whose asks rise, such as one that was just initialised.
pub proof fn lemma_larger_buy_slips_no_less<const QUEUE_DEPTH: usize, const BOOK_LEVELS: usize>(
    modeler: SlippageModeler<QUEUE_DEPTH, BOOK_LEVELS>,
    small: u64,
    large: u64,
)
    requires
        modeler.wf(),
        modeler.ascends(),
        small <= large,
        modeler.can_estimate_market(small, true),
        modeler.can_estimate_market(large, true),
    ensures
        0 <= modeler.market_result(small, true).slippage_ticks <= modeler.market_result(
            large,
            true,
        ).slippage_ticks,
{
    lemma_average_rises(
        modeler.book@,
        modeler.best_ask_idx as int,
        small as int,
        large as int,
    );
}

/// An order that a book of large enough levels can serve is filled entirely
/// at the first level.
pub proof fn lemma_small_order_no_slippage(
    book: Seq<BookLevel>,
    idx: int,
    quantity: int,
    is_buy: bool,
)
    requires
        0 < idx < book.len(),
        0 < quantity <= available(book[idx], is_buy),
    ensures
        walk(book, idx, quantity, is_buy).filled == quantity,
        tdiv(walk(book, idx, quantity, is_buy).cost, quantity) == book[idx].price_tick,
{
    let p = book[idx].price_tick as int;
    let w = walk(book, idx, quantity, is_buy);
    let next = if is_buy {
        idx + 1
    } else {
        idx - 1
    };
    assert(walk(book, next, 0, is_buy) == (Walk { filled: 0, cost: 0 }));
    assert(w.cost == quantity * p);
    assert(p >= 0 ==> quantity * p >= 0 && (quantity * p) / quantity == p) by (nonlinear_arith)
        requires
            quantity > 0,
    ;
    assert(p < 0 ==> quantity * p < 0 && (-(quantity * p)) / quantity == -p) by (nonlinear_arith)
        requires
            quantity > 0,
    ;
}

/// Slippage modeler with queue history per level.
pub struct SlippageModeler<const QUEUE_DEPTH: usize, const BOOK_LEVELS: usize> {
    /// Order book snapshot.
    pub book: Vec<BookLevel>,
    /// Queue position history per level.
    pub queue_history: Vec<QueueBuffer<QUEUE_DEPTH>>,
    pub best_bid_idx: u64,
    pub best_ask_idx: u64,
    pub spread_ticks: i64,
    /// Volatility factor (scaled by 1000).
    pub volatility_factor: u64,
    /// Liquidity factor (scaled by 1000).
    pub liquidity_factor: u64,
    pub orders_modeled: u64,
    /// Total slippage in ticks.
    pub total_slippage: i64,
}

/// Level `i` of an initialised book: prices one tick apart around the middle,
/// sizes falling with the distance from it.
pub open spec fn initial_level(
    before: BookLevel,
    i: int,
    mid_idx: int,
    mid_price: int,
    tick_size: int,
) -> BookLevel {
    let size = max(1000 - abs(i - mid_idx) * 50, 0);
    BookLevel {
        price_tick: (mid_price + (i - mid_idx) * tick_size) as i64,
        bid_size: if i < mid_idx {
            size as u64
        } else {
            0
        },
        ask_size: if i < mid_idx {
            0
        } else {
            size as u64
        },
        ..before
    }
}

impl<const QUEUE_DEPTH: usize, const BOOK_LEVELS: usize> SlippageModeler<QUEUE_DEPTH, BOOK_LEVELS> {
    /// Every level has a queue history, and both best indices name a level.
    pub open spec fn wf(&self) -> bool {
        &&& QUEUE_DEPTH > 0
        &&& self.book@.len() == BOOK_LEVELS
        &&& self.queue_history@.len() == BOOK_LEVELS
        &&& self.best_bid_idx < BOOK_LEVELS
        &&& self.best_ask_idx < BOOK_LEVELS
        &&& forall|i: int| 0 <= i < BOOK_LEVELS ==> (#[trigger] self.queue_history@[i]).wf()
    }

    /// Level at which a market order starts.
    pub open spec fn start_level(&self, is_buy: bool) -> int {
        if is_buy {
            self.best_ask_idx as int
        } else {
            self.best_bid_idx as int
        }
    }

    /// How a market order walks the book.
    pub open spec fn market_walk(&self, quantity: u64, is_buy: bool) -> Walk {
        walk(self.book@, self.start_level(is_buy), quantity as int, is_buy)
    }

    /// Average fill price of a market order.
    pub open spec fn market_price(&self, quantity: u64, is_buy: bool) -> int {
        let w = self.market_walk(quantity, is_buy);
        tdiv(w.cost, w.filled)
    }

    /// Ticks from the best price to the average fill price.
    pub open spec fn market_ticks(&self, quantity: u64, is_buy: bool) -> int {
        self.market_price(quantity, is_buy) - self.book@[self.start_level(is_buy)].price_tick
    }

    /// A market order estimate computes no number out of range.
    pub open spec fn can_estimate_market(&self, quantity: u64, is_buy: bool) -> bool {
        self.market_walk(quantity, is_buy).filled > 0 ==> {
            let ticks = self.market_ticks(quantity, is_buy);
            let first = self.book@[self.start_level(is_buy)].price_tick;
            &&& fits_i64(ticks)
            &&& first > 0 ==> fits_i64(abs(ticks) * 10000)
            &&& fits_u64(quantity * self.volatility_factor)
            &&& fits_u64(quantity * self.volatility_factor * self.liquidity_factor)
        }
    }

    /// Estimate for a market order.
    pub open spec fn market_result(&self, quantity: u64, is_buy: bool) -> SlippageResult {
        let w = self.market_walk(quantity, is_buy);
        let start = self.start_level(is_buy);
        let first = self.book@[start].price_tick;
        let ticks = self.market_ticks(quantity, is_buy);
        if w.filled > 0 {
            SlippageResult {
                actual_price: self.market_price(quantity, is_buy) as i64,
                expected_price: first,
                slippage_ticks: ticks as i64,
                slippage_bps: if first > 0 {
                    ((abs(ticks) * 10000) / (first as int)) as i64 as i32
                } else {
                    0
                },
                market_impact_bps: ((quantity * self.volatility_factor * self.liquidity_factor)
                    / 1_000_000) as u64 as i32,
                fill_probability: max(
                    10000 - abs(self.queue_history@[start].avg()) / 100,
                    0,
                ) as u32,
                ..blank_slippage()
            }
        } else {
            blank_slippage()
        }
    }

    /// The prices of the asks rise from the best one on.
    pub open spec fn ascends(&self) -> bool {
        self.best_ask_idx > 0 && ascending_from(self.book@, self.best_ask_idx as int)
    }

    /// Level whose price is `price`, the first such one, or level zero.
    pub open spec fn level_at(&self, price: i64, level: int) -> bool {
        ||| {
            &&& 0 <= level < BOOK_LEVELS
            &&& self.book@[level].price_tick == price
            &&& forall|j: int| 0 <= j < level ==> (#[trigger] self.book@[j]).price_tick != price
        }
        ||| {
            &&& level == 0
            &&& forall|j: int|
                0 <= j < BOOK_LEVELS ==> (#[trigger] self.book@[j]).price_tick != price
        }
    }

    /// Estimate for a limit order of `quantity` at `level`.
    pub open spec fn limit_result(&self, price: i64, quantity: u64, level: int) -> SlippageResult {
        let ahead = abs(self.queue_history@[level].avg());
        SlippageResult {
            expected_price: price,
            actual_price: price,
            fill_probability: if ahead < quantity {
                10000
            } else {
                ((quantity * 10000) / (ahead + 1)) as u32
            },
            estimated_latency_ns: min(ahead * 1000, u64::MAX as int) as u64,
            ..blank_slippage()
        }
    }

    /// Modeler with an empty book; the sides meet in the middle.
    pub fn new() -> (r: Self)
        requires
            QUEUE_DEPTH > 0,
            BOOK_LEVELS > 0,
        ensures
            r.wf(),
            r.book@ == Seq::new(BOOK_LEVELS as nat, |i: int| blank_level()),
            forall|i: int|
                0 <= i < BOOK_LEVELS ==> {
                    &&& (#[trigger] r.queue_history@[i]).data@ == Seq::new(
                        QUEUE_DEPTH as nat,
                        |j: int| 0i64,
                    )
                    &&& r.queue_history@[i].head == 0
                    &&& r.queue_history@[i].tail == 0
                },
            r.best_bid_idx == 0,
            r.best_ask_idx == BOOK_LEVELS / 2,
            r.spread_ticks == 1,
            r.volatility_factor == 1000,
            r.liquidity_factor == 1000,
            r.orders_modeled == 0,
            r.total_slippage == 0,
    {
        let mut book: Vec<BookLevel> = Vec::new();
        let mut queue_history: Vec<QueueBuffer<QUEUE_DEPTH>> = Vec::new();
        let mut i: usize = 0;
        while i < BOOK_LEVELS
            invariant
                i <= BOOK_LEVELS,
                book@.len() == i,
                queue_history@.len() == i,
                forall|j: int| 0 <= j < i ==> book@[j] == blank_level(),
                forall|j: int|
                    0 <= j < i ==> {
                        &&& (#[trigger] queue_history@[j]).wf()
                        &&& queue_history@[j].data@ == Seq::new(
                            QUEUE_DEPTH as nat,
                            |k: int| 0i64,
                        )
                        &&& queue_history@[j].head == 0
                        &&& queue_history@[j].tail == 0
                    },
            decreases BOOK_LEVELS - i,
        {
            book.push(BookLevel::new());
            queue_history.push(QueueBuffer::new());
            i = i + 1;
        }
        assert(book@ =~= Seq::new(BOOK_LEVELS as nat, |i: int| blank_level()));
        SlippageModeler {
            book,
            queue_history,
            best_bid_idx: 0,
            best_ask_idx: (BOOK_LEVELS / 2) as u64,
            spread_ticks: 1,
            volatility_factor: 1000,
            liquidity_factor: 1000,
            orders_modeled: 0,
            total_slippage: 0,
        }
    }

    /// Initialise the order book around `mid_price` with levels `tick_size`
    /// apart.
    pub fn init_book(&mut self, mid_price: i64, tick_size: i64)
        requires
            old(self).wf(),
            BOOK_LEVELS >= 2,
            forall|i: int|
                0 <= i < BOOK_LEVELS ==> #[trigger] fits_i64(
                    mid_price + (i - BOOK_LEVELS / 2) * tick_size,
                ),
        ensures
            final(self).wf(),
            final(self).book@ == Seq::new(
                BOOK_LEVELS as nat,
                |i: int|
                    initial_level(
                        old(self).book@[i],
                        i,
                        (BOOK_LEVELS / 2) as int,
                        mid_price as int,
                        tick_size as int,
                    ),
            ),
            *final(self) == (SlippageModeler {
                book: final(self).book,
                best_bid_idx: (BOOK_LEVELS / 2 - 1) as u64,
                best_ask_idx: (BOOK_LEVELS / 2) as u64,
                spread_ticks: tick_size,
                ..*old(self)
            }),
            mid_price >= 0 && tick_size >= 0 ==> final(self).ascends(),
    {
        let mid_idx: usize = BOOK_LEVELS / 2;
        let mut i: usize = 0;
        while i < BOOK_LEVELS
            invariant
                i <= BOOK_LEVELS,
                mid_idx == BOOK_LEVELS / 2,
                self.book@.len() == BOOK_LEVELS,
                old(self).book@.len() == BOOK_LEVELS,
                *self == (SlippageModeler { book: self.book, ..*old(self) }),
                forall|j: int|
                    0 <= j < BOOK_LEVELS ==> #[trigger] fits_i64(
                        mid_price + (j - BOOK_LEVELS / 2) * tick_size,
                    ),
                forall|j: int|
                    0 <= j < i ==> self.book@[j] == initial_level(
                        old(self).book@[j],
                        j,
                        mid_idx as int,
                        mid_price as int,
                        tick_size as int,
                    ),
                forall|j: int| i <= j < BOOK_LEVELS ==> self.book@[j] == old(self).book@[j],
            decreases BOOK_LEVELS - i,
        {
            assert(fits_i64(mid_price + (i - BOOK_LEVELS / 2) * tick_size));
            let steps: i128 = i as i128 - mid_idx as i128;
            let offset: i128 = steps * (tick_size as i128);
            let distance: usize = if i < mid_idx {
                mid_idx - i
            } else {
                i - mid_idx
            };
            let base_vol: u64 = if distance < 20 {
                1000 - distance as u64 * 50
            } else {
                0
            };
            let mut level = self.book[i];
            level.price_tick = (mid_price as i128 + offset) as i64;
            if i < mid_idx {
                level.bid_size = base_vol;
                level.ask_size = 0;
            } else {
                level.bid_size = 0;
                level.ask_size = base_vol;
            }
            self.book.set(i, level);
            i = i + 1;
        }
        self.best_bid_idx = (mid_idx - 1) as u64;
        self.best_ask_idx = mid_idx as u64;
        self.spread_ticks = tick_size;
        assert(self.book@ =~= Seq::new(
            BOOK_LEVELS as nat,
            |i: int|
                initial_level(
                    old(self).book@[i],
                    i,
                    (BOOK_LEVELS / 2) as int,
                    mid_price as int,
                    tick_size as int,
                ),
        ));
        proof {
            if mid_price >= 0 && tick_size >= 0 {
                let m = mid_idx as int;
                assert forall|a: int, b: int| m <= a <= b < BOOK_LEVELS implies (
                #[trigger] self.book@[a]).price_tick <= (#[trigger] self.book@[b]).price_tick by {
                    assert(fits_i64(mid_price + (a - BOOK_LEVELS / 2) * tick_size));
                    assert(fits_i64(mid_price + (b - BOOK_LEVELS / 2) * tick_size));
                    assert(self.book@[a].price_tick == mid_price + (a - m) * tick_size);
                    assert(self.book@[b].price_tick == mid_price + (b - m) * tick_size);
                    assert((a - m) * tick_size <= (b - m) * tick_size) by (nonlinear_arith)
                        requires
                            m <= a <= b,
                            tick_size >= 0,
                    ;
                }
                assert(fits_i64(mid_price + (m - BOOK_LEVELS / 2) * tick_size));
                assert(self.book@[m].price_tick == mid_price + (m - m) * tick_size);
                assert((m - m) * tick_size == 0) by (nonlinear_arith);
            }
        }
    }

    /// Set price and sizes of a level and record the imbalance in its queue
    /// history. An index out of range is ignored.
    pub fn update_level(&mut self, level_idx: usize, price: i64, bid_size: u64, ask_size: u64)
        requires
            old(self).wf(),
            level_idx < BOOK_LEVELS ==> fits_i64((bid_size as i64) - (ask_size as i64))
                && old(self).queue_history@[level_idx as int].can_push(
                ((bid_size as i64) - (ask_size as i64)) as i64,
            ),
        ensures
            final(self).wf(),
            level_idx >= BOOK_LEVELS ==> *final(self) == *old(self),
            level_idx < BOOK_LEVELS ==> {
                &&& final(self).book@ == old(self).book@.update(
                    level_idx as int,
                    BookLevel {
                        price_tick: price,
                        bid_size,
                        ask_size,
                        ..old(self).book@[level_idx as int]
                    },
                )
                &&& old(self).queue_history@[level_idx as int].pushed(
                    ((bid_size as i64) - (ask_size as i64)) as i64,
                    &final(self).queue_history@[level_idx as int],
                )
                &&& forall|j: int|
                    0 <= j < BOOK_LEVELS && j != level_idx
                        ==> #[trigger] final(self).queue_history@[j] == old(self).queue_history@[j]
                &&& *final(self) == (SlippageModeler {
                    book: final(self).book,
                    queue_history: final(self).queue_history,
                    ..*old(self)
                })
            },
    {
        if level_idx >= BOOK_LEVELS {
            return ;
        }
        let mut level = self.book[level_idx];
        level.price_tick = price;
        level.bid_size = bid_size;
        level.ask_size = ask_size;
        self.book.set(level_idx, level);
        let imbalance: i64 = bid_size as i64 - ask_size as i64;
        self.queue_history[level_idx].push(imbalance);
    }

    /// Estimate the slippage of a market order and count it in the
    /// statistics.
    pub fn estimate_market_slippage(&mut self, quantity: u64, is_buy: bool) -> (r: SlippageResult)
        requires
            old(self).wf(),
            old(self).can_estimate_market(quantity, is_buy),
        ensures
            final(self).wf(),
            r == old(self).market_result(quantity, is_buy),
            *final(self) == (SlippageModeler {
                orders_modeled: old(self).orders_modeled.wrapping_add(1),
                total_slippage: old(self).total_slippage.wrapping_add(r.slippage_ticks),
                ..*old(self)
            }),
    {
        let mut result = SlippageResult::new();
        let start_idx: usize = if is_buy {
            self.best_ask_idx as usize
        } else {
            self.best_bid_idx as usize
        };
        let mut remaining: u64 = quantity;
        let mut total_cost: i128 = 0;
        let mut filled: u64 = 0;
        let first_price: i64 = self.book[start_idx].price_tick;
        let mut idx: usize = start_idx;
        while remaining > 0 && idx < BOOK_LEVELS && idx > 0
            invariant
                self.book@.len() == BOOK_LEVELS,
                idx <= BOOK_LEVELS,
                filled + remaining == quantity,
                -(filled * 0x8000_0000_0000_0000) <= total_cost <= filled
                    * 0x7fff_ffff_ffff_ffff,
                walk(self.book@, start_idx as int, quantity as int, is_buy).filled == filled + walk(
                    self.book@,
                    idx as int,
                    remaining as int,
                    is_buy,
                ).filled,
                walk(self.book@, start_idx as int, quantity as int, is_buy).cost == total_cost
                    + walk(self.book@, idx as int, remaining as int, is_buy).cost,
            decreases
                    if is_buy {
                        BOOK_LEVELS - idx
                    } else {
                        idx as int
                    },
        {
            let available: u64 = if is_buy {
                self.book[idx].ask_size
            } else {
                self.book[idx].bid_size
            };
            let fill_qty: u64 = if remaining < available {
                remaining
            } else {
                available
            };
            let price: i64 = self.book[idx].price_tick;
            if fill_qty > 0 {
                assert(-(fill_qty * 0x8000_0000_0000_0000) <= fill_qty * price <= fill_qty
                    * 0x7fff_ffff_ffff_ffff) by (nonlinear_arith);
                total_cost = total_cost + (fill_qty as i128) * (price as i128);
                filled = filled + fill_qty;
                remaining = remaining - fill_qty;
            } else {
                assert(fill_qty * price == 0) by (nonlinear_arith)
                    requires
                        fill_qty == 0,
                ;
            }
            if is_buy {
                idx = idx + 1;
            } else {
                idx = idx - 1;
            }
        }
        if filled > 0 {
            proof {
                lemma_mean_bound(total_cost as int, filled as int);
            }
            let avg_price: i64 = div_i128(total_cost, filled as i128) as i64;
            result.actual_price = avg_price;
            result.expected_price = first_price;
            result.slippage_ticks = (avg_price as i128 - first_price as i128) as i64;
            if first_price > 0 {
                let ticks: i64 = result.slippage_ticks;
                result.slippage_bps = ((abs_i64(ticks) * 10000) / first_price) as i32;
            }
            let vol_factor: u64 = self.volatility_factor;
            let liq_factor: u64 = self.liquidity_factor;
            result.market_impact_bps = ((quantity * vol_factor * liq_factor) / 1_000_000) as i32;
            let queue_avg: i64 = self.queue_history[start_idx].average();
            let penalty: u64 = unsigned_abs_i64(queue_avg) / 100;
            result.fill_probability =
            if penalty < 10000 {
                10000 - penalty as u32
            } else {
                0
            };
        }
        self.orders_modeled = self.orders_modeled.wrapping_add(1);
        self.total_slippage = self.total_slippage.wrapping_add(result.slippage_ticks);
        result
    }

    /// Estimate fill probability and latency of a limit order from the queue
    /// history of its level.
    pub fn estimate_limit_slippage(&self, price: i64, quantity: u64, is_buy: bool) -> (r:
        SlippageResult)
        requires
            self.wf(),
        ensures
            exists|level: int|
                #[trigger] self.level_at(price, level) && r == self.limit_result(
                    price,
                    quantity,
                    level,
                ),
            r.fill_probability <= 10000,
    {
        let mut result = SlippageResult::new();
        result.expected_price = price;
        result.actual_price = price;
        let mut level_idx: usize = 0;
        let mut i: usize = 0;
        while i < BOOK_LEVELS
            invariant_except_break
                level_idx == 0,
            invariant
                i <= BOOK_LEVELS,
                self.book@.len() == BOOK_LEVELS,
                forall|j: int| 0 <= j < i ==> (#[trigger] self.book@[j]).price_tick != price,
            ensures
                level_idx < BOOK_LEVELS || BOOK_LEVELS == 0,
                self.level_at(price, level_idx as int),
            decreases BOOK_LEVELS - i,
        {
            if self.book[i].price_tick == price {
                level_idx = i;
                break ;
            }
            i = i + 1;
        }
        let queue_avg: i64 = self.queue_history[level_idx].average();
        let ahead: u64 = unsigned_abs_i64(queue_avg);
        result.fill_probability =
        if ahead < quantity {
            10000
        } else {
            assert((quantity * 10000) / (ahead + 1) < 10000) by (nonlinear_arith)
                requires
                    quantity <= ahead,
            ;
            ((quantity as u128 * 10000) / (ahead as u128 + 1)) as u32
        };
        result.estimated_latency_ns = saturating_mul_u64(ahead, 1000);
        assert(self.level_at(price, level_idx as int) && result == self.limit_result(
            price,
            quantity,
            level_idx as int,
        ));
        result
    }

    /// Set the volatility factor.
    pub fn set_volatility(&mut self, factor: u32)
        requires
            old(self).wf(),
        ensures
            final(self).wf(),
            *final(self) == (SlippageModeler { volatility_factor: factor as u64, ..*old(self) }),
    {
        self.volatility_factor = factor as u64;
    }

    /// Set the liquidity factor.
    pub fn set_liquidity(&mut self, factor: u32)
        requires
            old(self).wf(),
        ensures
            final(self).wf(),
            *final(self) == (SlippageModeler { liquidity_factor: factor as u64, ..*old(self) }),
    {
        self.liquidity_factor = factor as u64;
    }

    /// Average slippage as a fraction: total ticks, and number of orders
    /// (zero orders: no average).
    pub fn average_slippage(&self) -> (r: (i64, u64))
        ensures
            r.0 == self.total_slippage,
            r.1 == self.orders_modeled,
    {
        (self.total_slippage, self.orders_modeled)
    }

    /// Spread in ticks.
    pub fn current_spread(&self) -> (r: i64)
        ensures
            r == self.spread_ticks,
    {
        self.spread_ticks
    }

    /// Forget the statistics.
    pub fn reset_stats(&mut self)
        requires
            old(self).wf(),
        ensures
            final(self).wf(),
            *final(self) == (SlippageModeler { orders_modeled: 0, total_slippage: 0, ..*old(self) }),
    {
        self.orders_modeled = 0;
        self.total_slippage = 0;
    }
}

proof fn lemma_mean_bound(cost: int, filled: int)
    requires
        filled > 0,
        -(filled * 0x8000_0000_0000_0000) <= cost <= filled * 0x7fff_ffff_ffff_ffff,
    ensures
        fits_i64(tdiv(cost, filled)),
{
    if cost >= 0 {
        assert(0 <= cost / filled <= 0x7fff_ffff_ffff_ffff) by (nonlinear_arith)
            requires
                filled > 0,
                0 <= cost <= filled * 0x7fff_ffff_ffff_ffff,
        ;
    } else {
        let c = -cost;
        assert(0 <= c / filled <= 0x8000_0000_0000_0000) by (nonlinear_arith)
            requires
                filled > 0,
                0 <= c <= filled * 0x8000_0000_0000_0000,
        ;
    }
}

/// Typical configuration.
pub type CryptoSlippageModeler = SlippageModeler<MAX_QUEUE_DEPTH, MAX_BOOK_LEVELS>;

/// An order takes what its level offers before it goes on: a buy takes the asks and goes up
/// the book, a sell takes the bids and goes down.
pub proof fn lemma_walk_by_levels(book: Seq<BookLevel>, idx: int, quantity: int)
    requires
        0 < idx < book.len(),
        quantity > 0,
    ensures
        ({
            let (ask, bid, price) = (
                book[idx].ask_size as int,
                book[idx].bid_size as int,
                book[idx].price_tick as int,
            );
            let (buy, sell) = (walk(book, idx, quantity, true), walk(book, idx, quantity, false));
            &&& quantity <= ask ==> buy.filled == quantity && buy.cost == quantity * price
            &&& quantity <= bid ==> sell.filled == quantity && sell.cost == quantity * price
            &&& quantity > ask ==> {
                let above = walk(book, idx + 1, quantity - ask, true);
                buy.filled == ask + above.filled && buy.cost == ask * price + above.cost
            }
            &&& quantity > bid ==> {
                let below = walk(book, idx - 1, quantity - bid, false);
                sell.filled == bid + below.filled && sell.cost == bid * price + below.cost
            }
        }),
{
    assert(walk(book, idx + 1, 0, true) == (Walk { filled: 0, cost: 0 }));
    assert(walk(book, idx - 1, 0, false) == (Walk { filled: 0, cost: 0 }));
}

/// Level zero and places outside the book serve no order.
pub proof fn lemma_walk_ends(book: Seq<BookLevel>, idx: int, quantity: int, is_buy: bool)
    requires
        idx <= 0 || idx >= book.len() || quantity <= 0,
    ensures
        walk(book, idx, quantity, is_buy).filled == 0,
        walk(book, idx, quantity, is_buy).cost == 0,
{
}

/// A sell gets no better price than the best bid, where the prices below it are no higher.
pub proof fn lemma_sell_at_best_or_below(book: Seq<BookLevel>, idx: int, quantity: int, price: int)
    requires
        quantity >= 0,
        idx < book.len(),
        forall|i: int| 0 < i <= idx ==> (#[trigger] book[i]).price_tick <= price,
    ensures
        walk(book, idx, quantity, false).cost <= walk(book, idx, quantity, false).filled * price,
        walk(book, idx, quantity, false).filled >= 0,
    decreases idx,
{
    if quantity > 0 && 0 < idx {
        let fill = min(quantity, available(book[idx], false));
        lemma_sell_at_best_or_below(book, idx - 1, quantity - fill, price);
        let rest = walk(book, idx - 1, quantity - fill, false);
        let tick = book[idx].price_tick as int;
        assert(fill * tick + rest.cost <= (fill + rest.filled) * price) by (nonlinear_arith)
            requires
                fill >= 0,
                tick <= price,
                rest.cost <= rest.filled * price,
        ;
    } else {
        assert(0 * price == 0) by (nonlinear_arith);
    }
}

/// An estimate starts from the best ask for a buy and from the best bid for a sell; the
/// price that is paid is the cost over the quantity filled, the slippage its distance from
/// the best price, and the rate of slippage that distance in basis points of the best
/// price.
pub proof fn lemma_market_estimate<const QUEUE_DEPTH: usize, const BOOK_LEVELS: usize>(
    m: SlippageModeler<QUEUE_DEPTH, BOOK_LEVELS>,
    quantity: u64,
    is_buy: bool,
)
    requires
        m.wf(),
        m.can_estimate_market(quantity, is_buy),
        m.market_walk(quantity, is_buy).filled > 0,
        m.market_walk(quantity, is_buy).cost >= 0,
        m.market_walk(quantity, is_buy).cost <= m.market_walk(quantity, is_buy).filled * i64::MAX,
    ensures
        ({
            let start = if is_buy {
                m.best_ask_idx as int
            } else {
                m.best_bid_idx as int
            };
            let w = walk(m.book@, start, quantity as int, is_buy);
            let r = m.market_result(quantity, is_buy);
            &&& m.market_walk(quantity, is_buy) == w
            &&& r.expected_price == m.book@[start].price_tick
            &&& r.actual_price * w.filled <= w.cost < (r.actual_price + 1) * w.filled
            &&& r.slippage_ticks == r.actual_price - r.expected_price
        }),
{
    let w = m.market_walk(quantity, is_buy);
    lemma_tdiv_rounds(w.cost, w.filled);
    let q = tdiv(w.cost, w.filled);
    let f = w.filled;
    assert((q + 1) * f == q * f + f) by (nonlinear_arith);
    assert(0 <= q <= i64::MAX) by (nonlinear_arith)
        requires
            0 <= w.cost - q * f < f,
            0 <= w.cost <= f * 0x7fff_ffff_ffff_ffff,
            f > 0,
    ;
}

/// The rate of slippage, the impact and the chance of a fill of an estimate.
pub proof fn lemma_market_rates<const QUEUE_DEPTH: usize, const BOOK_LEVELS: usize>(
    m: SlippageModeler<QUEUE_DEPTH, BOOK_LEVELS>,
    quantity: u64,
    is_buy: bool,
)
    requires
        m.wf(),
        m.can_estimate_market(quantity, is_buy),
        m.market_walk(quantity, is_buy).filled > 0,
        m.book@[m.start_level(is_buy)].price_tick > 0,
        m.market_result(quantity, is_buy).slippage_ticks >= 0,
        m.market_ticks(quantity, is_buy) * 10_000 <= 1_000_000_000
            * m.book@[m.start_level(is_buy)].price_tick,
        quantity * m.volatility_factor * m.liquidity_factor <= 1_000_000_000_000_000,
    ensures
        ({
            let r = m.market_result(quantity, is_buy);
            let first = m.book@[m.start_level(is_buy)].price_tick;
            let scaled = quantity * m.volatility_factor * m.liquidity_factor;
            let a = m.queue_history@[m.start_level(is_buy)].avg();
            let queue = if a >= 0 {
                a
            } else {
                -a
            };
            &&& r.slippage_bps * first <= r.slippage_ticks * 10_000 < (r.slippage_bps + 1) * first
            &&& r.market_impact_bps * 1_000_000 <= scaled < (r.market_impact_bps + 1) * 1_000_000
            &&& queue < 1_000_000 ==> 100 * (10_000 - r.fill_probability) <= queue < 100 * (10_001
                - r.fill_probability)
            &&& queue >= 1_000_000 ==> r.fill_probability == 0
        }),
{
    let t = m.market_ticks(quantity, is_buy);
    let f = m.book@[m.start_level(is_buy)].price_tick as int;
    let x = t * 10_000;
    let q = x / f;
    assert(t >= 0);
    assert(0 <= q <= 1_000_000_000 && q * f <= x < (q + 1) * f) by (nonlinear_arith)
        requires
            q == x / f,
            0 <= x <= 1_000_000_000 * f,
            f > 0,
    ;
    let s = quantity * m.volatility_factor * m.liquidity_factor;
    assert(s >= 0) by (nonlinear_arith)
        requires
            s == quantity * m.volatility_factor * m.liquidity_factor,
            quantity >= 0,
            m.volatility_factor >= 0,
            m.liquidity_factor >= 0,
    ;
}

/// A limit order smaller than or as large as its queue fills in proportion to it; one that
/// is larger fills for certain. It waits a microsecond for each unit of the queue.
pub proof fn lemma_limit_estimate<const QUEUE_DEPTH: usize, const BOOK_LEVELS: usize>(
    m: SlippageModeler<QUEUE_DEPTH, BOOK_LEVELS>,
    price: i64,
    quantity: u64,
    level: int,
)
    requires
        0 <= level < BOOK_LEVELS,
        m.queue_history@[level].avg() >= 0,
        m.queue_history@[level].avg() <= 1_000_000_000_000,
    ensures
        ({
            let r = m.limit_result(price, quantity, level);
            let ahead = m.queue_history@[level].avg();
            &&& r.expected_price == price
            &&& r.actual_price == price
            &&& ahead < quantity ==> r.fill_probability == 10_000
            &&& ahead >= quantity ==> r.fill_probability * (ahead + 1) <= quantity * 10_000 < (
            r.fill_probability + 1) * (ahead + 1)
            &&& r.estimated_latency_ns == ahead * 1000
        }),
{
    let a = m.queue_history@[level].avg();
    let n = a + 1;
    let x = quantity * 10_000;
    let q = x / n;
    if a >= quantity {
        assert(0 <= q <= 10_000 && q * n <= x < (q + 1) * n) by (nonlinear_arith)
            requires
                q == x / n,
                0 <= x <= 10_000 * n,
                n > 0,
        ;
    }
}

/// A new book: prices go up by a tick with each level; bids stand below the middle and
/// asks from it on, a thousand units there and fifty fewer with each level away.
pub proof fn lemma_initial_book(before: BookLevel, i: int, mid_idx: int, mid_price: int, tick_size: int)
    requires
        fits_i64(mid_price + (i - mid_idx) * tick_size),
        -20 <= i - mid_idx <= 20,
    ensures
        ({
            let l = initial_level(before, i, mid_idx, mid_price, tick_size);
            &&& l.price_tick == mid_price + (i - mid_idx) * tick_size
            &&& i >= mid_idx ==> l.ask_size == 1000 - 50 * (i - mid_idx) && l.bid_size == 0
            &&& i < mid_idx ==> l.bid_size == 1000 - 50 * (mid_idx - i) && l.ask_size == 0
        }),
{
}

/// The average of a queue times the number of values that wait is the sum over the slots.
pub proof fn lemma_queue_average<const N: usize>(q: QueueBuffer<N>)
    requires
        q.tail < q.head,
        q.sum >= 0,
    ensures
        q.avg() * (q.head - q.tail) <= q.sum < (q.avg() + 1) * (q.head - q.tail),
{
    let (s, n) = (q.sum as int, q.head - q.tail);
    lemma_tdiv_rounds(s, n);
    let a = tdiv(s, n);
    assert((a + 1) * n == a * n + n) by (nonlinear_arith);
}

} // verus!
