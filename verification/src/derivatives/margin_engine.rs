//! Isolated and cross margin: liquidation prices, equity and margin ratios.
//!
//! Prices, sizes, margins and ratios are fixed-point numbers scaled by 1e9;
//! products are computed at full width.

use crate::fixed::{
    abs, div_i128, fits_i128, fits_i64, lemma_tdiv_monotone, lemma_tdiv_rounds, lemma_tdiv_unique,
    mul_div, mul_wide, tdiv,
};
use vstd::prelude::*;

verus! {

/// Fixed-point scaling factor (1e9).
pub const FP_SCALE: i64 = 1_000_000_000;

/// Default maintenance margin ratio, 0.5%.
pub const DEFAULT_MAINTENANCE_MARGIN: i64 = 5_000_000;

/// One margined position.
#[derive(Debug)]
pub struct MarginPosition {
    pub entry_price: i64,
    /// Position size: positive for long, negative for short.
    pub position_size: i64,
    pub initial_margin: i64,
    pub maintenance_margin_ratio: i64,
    pub leverage: i64,
}

/// Account state that a liquidation check looks at.
#[derive(Debug)]
pub struct LiquidationCalculator {
    pub mark_price: i64,
    pub liq_threshold: i64,
    pub margin_balance: i64,
    pub unrealized_pnl: i64,
}

/// How margin is held.
#[derive(Clone, Copy, PartialEq, Eq, Debug)]
pub enum MarginType {
    Isolated,
    Cross,
}

impl Default for MarginPosition {
    fn default() -> (r: Self)
        ensures
            r == (MarginPosition {
                entry_price: 0,
                position_size: 0,
                initial_margin: 0,
                maintenance_margin_ratio: DEFAULT_MAINTENANCE_MARGIN,
                leverage: 1_000_000_000,
            }),
    {
        MarginPosition {
            entry_price: 0,
            position_size: 0,
            initial_margin: 0,
            maintenance_margin_ratio: DEFAULT_MAINTENANCE_MARGIN,
            leverage: 1_000_000_000,
        }
    }
}

impl Default for LiquidationCalculator {
    fn default() -> (r: Self)
        ensures
            r == (LiquidationCalculator {
                mark_price: 0,
                liq_threshold: 0,
                margin_balance: 0,
                unrealized_pnl: 0,
            }),
    {
        LiquidationCalculator {
            mark_price: 0,
            liq_threshold: 0,
            margin_balance: 0,
            unrealized_pnl: 0,
        }
    }
}

/// Value of a position of the given size at the given price.
pub open spec fn notional(price: int, size: int) -> int {
    tdiv(price * abs(size), FP_SCALE as int)
}

/// Margin posted per unit of notional value.
pub open spec fn im_ratio(initial_margin: int, notional: int) -> int {
    tdiv(initial_margin * FP_SCALE, notional)
}

impl MarginPosition {
    /// Liquidation price of a long position:
    /// entry * (1 - margin/notional) / (1 - maintenance ratio).
    pub open spec fn long_liquidation(&self) -> int {
        let n = notional(self.entry_price as int, self.position_size as int);
        if self.position_size <= 0 || n == 0 {
            0
        } else if FP_SCALE - self.maintenance_margin_ratio <= 0 {
            i64::MAX as int
        } else {
            tdiv(
                self.entry_price * (FP_SCALE - im_ratio(self.initial_margin as int, n)),
                FP_SCALE - self.maintenance_margin_ratio,
            )
        }
    }

    /// Liquidation price of a short position:
    /// entry * (1 + margin/notional) / (1 + maintenance ratio).
    pub open spec fn short_liquidation(&self) -> int {
        let n = notional(self.entry_price as int, self.position_size as int);
        if self.position_size >= 0 || n == 0 {
            0
        } else {
            tdiv(
                self.entry_price * (FP_SCALE + im_ratio(self.initial_margin as int, n)),
                FP_SCALE + self.maintenance_margin_ratio,
            )
        }
    }

    /// Profit of the position at `mark_price`.
    pub open spec fn pnl_at(&self, mark_price: int) -> int {
        if self.position_size > 0 {
            tdiv((mark_price - self.entry_price) * self.position_size, FP_SCALE as int)
        } else {
            tdiv((self.entry_price - mark_price) * abs(self.position_size as int), FP_SCALE as int)
        }
    }

    /// Margin that the position has to keep.
    pub open spec fn maintenance_margin(&self) -> int {
        tdiv(
            notional(self.entry_price as int, self.position_size as int)
                * self.maintenance_margin_ratio,
            FP_SCALE as int,
        )
    }

    /// Position with the given leverage and the initial margin that it needs.
    pub fn new(entry_price: i64, size: i64, leverage: i64) -> (r: Self)
        requires
            leverage != 0,
            fits_i64(tdiv(abs(entry_price * size), leverage as int)),
        ensures
            r == (MarginPosition {
                entry_price,
                position_size: size,
                initial_margin: tdiv(abs(entry_price * size), leverage as int) as i64,
                maintenance_margin_ratio: DEFAULT_MAINTENANCE_MARGIN,
                leverage,
            }),
            leverage > 0 && entry_price * size >= 0 ==> r.initial_margin * leverage <= entry_price
                * size < (r.initial_margin + 1) * leverage,
            leverage > 0 && entry_price * size <= 0 ==> r.initial_margin * leverage <= -(entry_price
                * size) < (r.initial_margin + 1) * leverage,
    {
        proof {
            if leverage > 0 {
                lemma_margin_times_leverage(entry_price, size, leverage);
            }
        }
        let product: i128 = mul_wide(entry_price, size);
        let value: i128 = if product >= 0 {
            product
        } else {
            -product
        };
        let initial_margin: i64 = div_i128(value, leverage as i128) as i64;
        MarginPosition {
            entry_price,
            position_size: size,
            initial_margin,
            maintenance_margin_ratio: DEFAULT_MAINTENANCE_MARGIN,
            leverage,
        }
    }

    fn notional_value(&self) -> (r: i128)
        ensures
            r == notional(self.entry_price as int, self.position_size as int),
            -0x8000_0000_0000_0000_0000_0000_0000 <= r <= 0x8000_0000_0000_0000_0000_0000_0000,
    {
        let entry: i64 = self.entry_price;
        let size: i64 = self.position_size;
        let product: i128 = mul_wide(entry, size);
        let value: i128 = if size >= 0 {
            product
        } else {
            assert(-(entry * size) == entry * (-size)) by (nonlinear_arith);
            -product
        };
        div_i128(value, FP_SCALE as i128)
    }

    fn margin_per_notional(&self, n: i128) -> (r: i128)
        requires
            n != 0,
        ensures
            r == im_ratio(self.initial_margin as int, n as int),
            -0x8000_0000_0000_0000_0000_0000_0000 <= r <= 0x8000_0000_0000_0000_0000_0000_0000,
    {
        let scaled: i128 = mul_wide(self.initial_margin, FP_SCALE);
        proof {
            crate::fixed::lemma_tdiv_bound(scaled as int, n as int);
        }
        div_i128(scaled, n)
    }

    /// Liquidation price of a long position, zero for any other one.
    pub fn calc_liquidation_price_long(&self) -> (r: i64)
        requires
            fits_i64(self.long_liquidation()),
            fits_i128(
                self.entry_price * (FP_SCALE - im_ratio(
                    self.initial_margin as int,
                    notional(self.entry_price as int, self.position_size as int),
                )),
            ),
        ensures
            r == self.long_liquidation(),
    {
        if self.position_size <= 0 {
            return 0;
        }
        let n: i128 = self.notional_value();
        if n == 0 {
            return 0;
        }
        let ratio: i128 = self.margin_per_notional(n);
        let denominator: i128 = FP_SCALE as i128 - self.maintenance_margin_ratio as i128;
        if denominator <= 0 {
            return i64::MAX;
        }
        let numerator: i128 = self.entry_price as i128 * (FP_SCALE as i128 - ratio);
        div_i128(numerator, denominator) as i64
    }

    /// Liquidation price of a short position, zero for any other one.
    pub fn calc_liquidation_price_short(&self) -> (r: i64)
        requires
            FP_SCALE + self.maintenance_margin_ratio != 0,
            fits_i64(self.short_liquidation()),
            fits_i128(
                self.entry_price * (FP_SCALE + im_ratio(
                    self.initial_margin as int,
                    notional(self.entry_price as int, self.position_size as int),
                )),
            ),
        ensures
            r == self.short_liquidation(),
    {
        if self.position_size >= 0 {
            return 0;
        }
        let n: i128 = self.notional_value();
        if n == 0 {
            return 0;
        }
        let ratio: i128 = self.margin_per_notional(n);
        let denominator: i128 = FP_SCALE as i128 + self.maintenance_margin_ratio as i128;
        let numerator: i128 = self.entry_price as i128 * (FP_SCALE as i128 + ratio);
        proof {
            crate::fixed::lemma_tdiv_bound(numerator as int, denominator as int);
        }
        if denominator == -1 {
            return (-numerator) as i64;
        }
        div_i128(numerator, denominator) as i64
    }

    /// Set the mark price of `calc` and the unrealized profit of this
    /// position at it.
    pub fn update_mark_price(&self, mark_price: i64, calc: &mut LiquidationCalculator)
        requires
            fits_i64(self.pnl_at(mark_price as int)),
        ensures
            *final(calc) == (LiquidationCalculator {
                mark_price,
                unrealized_pnl: self.pnl_at(mark_price as int) as i64,
                ..*old(calc)
            }),
            ({
                let value = (mark_price - self.entry_price) * self.position_size;
                let rest = value - final(calc).unrealized_pnl * 1_000_000_000;
                &&& value >= 0 ==> 0 <= rest < 1_000_000_000
                &&& value <= 0 ==> -1_000_000_000 < rest <= 0
            }),
    {
        proof {
            lemma_profit_is_size_times_move(*self, mark_price as int);
        }
        calc.mark_price = mark_price;
        let entry: i64 = self.entry_price;
        let size: i64 = self.position_size;
        let gain: i128 = if size > 0 {
            mark_price as i128 - entry as i128
        } else {
            entry as i128 - mark_price as i128
        };
        let units: i128 = if size > 0 {
            size as i128
        } else {
            -(size as i128)
        };
        assert(-0x7fff_ffff_ffff_ffff_8000_0000_0000_0000 <= gain * units
            <= 0x7fff_ffff_ffff_ffff_8000_0000_0000_0000) by (nonlinear_arith)
            requires
                -0xffff_ffff_ffff_ffff <= gain <= 0xffff_ffff_ffff_ffff,
                0 <= units <= 0x8000_0000_0000_0000,
        ;
        calc.unrealized_pnl = div_i128(gain * units, FP_SCALE as i128) as i64;
    }

    /// The position should be liquidated: balance plus profit is below both
    /// the maintenance margin and the initial margin.
    pub fn is_liquidated(&self, calc: &LiquidationCalculator) -> (r: bool)
        requires
            fits_i128(
                notional(self.entry_price as int, self.position_size as int)
                    * self.maintenance_margin_ratio,
            ),
        ensures
            r == (calc.margin_balance + calc.unrealized_pnl < self.maintenance_margin()
                && calc.margin_balance + calc.unrealized_pnl < self.initial_margin),
    {
        let available: i128 = calc.margin_balance as i128 + calc.unrealized_pnl as i128;
        let n: i128 = self.notional_value();
        let maintenance: i128 = div_i128(
            n * self.maintenance_margin_ratio as i128,
            FP_SCALE as i128,
        );
        available < maintenance && available < self.initial_margin as i128
    }

    /// Set the leverage; values outside 1x to 125x leave it as it is.
    pub fn set_leverage(&mut self, new_leverage: i64)
        ensures
            *final(self) == (MarginPosition {
                leverage: if 1_000_000_000 <= new_leverage <= 125_000_000_000 {
                    new_leverage
                } else {
                    old(self).leverage
                },
                ..*old(self)
            }),
    {
        if new_leverage >= 1_000_000_000 && new_leverage <= 125_000_000_000 {
            self.leverage = new_leverage;
        }
    }
}

impl LiquidationCalculator {
    /// Balance plus unrealized profit.
    pub open spec fn equity(&self) -> int {
        self.margin_balance + self.unrealized_pnl
    }

    /// Used margin over equity; without equity, `i64::MAX`.
    pub open spec fn ratio(&self, used_margin: int) -> int {
        if self.equity() <= 0 {
            i64::MAX as int
        } else {
            tdiv(used_margin * FP_SCALE, self.equity())
        }
    }

    /// A margin call is due: the balance is more than `threshold` of the equity, and
    /// there is a profit or loss, or no equity at all.
    pub open spec fn calls(&self, threshold: i64) -> bool {
        &&& self.unrealized_pnl != 0 || self.equity() <= 0
        &&& self.ratio(self.margin_balance as int) > threshold
    }

    /// Set the margin balance.
    pub fn update_balance(&mut self, balance: i64)
        ensures
            *final(self) == (LiquidationCalculator { margin_balance: balance, ..*old(self) }),
    {
        self.margin_balance = balance;
    }

    /// Current equity.
    pub fn get_equity(&self) -> (r: i64)
        requires
            fits_i64(self.equity()),
        ensures
            r == self.equity(),
    {
        self.margin_balance + self.unrealized_pnl
    }

    /// Used margin over equity, scaled by 1e9.
    pub fn margin_ratio(&self, used_margin: i64) -> (r: i64)
        requires
            fits_i64(self.equity()),
            fits_i64(self.ratio(used_margin as int)),
        ensures
            r == self.ratio(used_margin as int),
    {
        let equity: i64 = self.get_equity();
        if equity <= 0 {
            return i64::MAX;
        }
        mul_div(used_margin, FP_SCALE, equity)
    }

    /// One if a margin call is due, zero otherwise. The balance counts as used margin;
    /// an account with equity and without profit or loss gets no call.
    pub fn check_margin_call(&self, threshold: i64) -> (r: i64)
        requires
            fits_i64(self.equity()),
            fits_i64(self.ratio(self.margin_balance as int)),
        ensures
            r == if self.calls(threshold) {
                1int
            } else {
                0
            },
    {
        let equity: i64 = self.get_equity();
        let ratio: i64 = self.margin_ratio(self.margin_balance);
        if ratio > threshold && (self.unrealized_pnl != 0 || equity <= 0) {
            1
        } else {
            0
        }
    }
}

/// Margin shared by all positions of a portfolio.
#[derive(Debug)]
pub struct CrossMarginEngine {
    pub portfolio_value: i64,
    pub total_used_margin: i64,
    pub net_pnl: i64,
    pub position_count: u64,
}

impl Default for CrossMarginEngine {
    fn default() -> (r: Self)
        ensures
            r == (CrossMarginEngine {
                portfolio_value: 0,
                total_used_margin: 0,
                net_pnl: 0,
                position_count: 0,
            }),
    {
        CrossMarginEngine { portfolio_value: 0, total_used_margin: 0, net_pnl: 0, position_count: 0 }
    }
}

impl CrossMarginEngine {
    /// Used margin over portfolio value; without value, `i64::MAX`.
    pub open spec fn ratio(&self) -> int {
        if self.portfolio_value <= 0 {
            i64::MAX as int
        } else {
            tdiv(self.total_used_margin * FP_SCALE, self.portfolio_value as int)
        }
    }

    /// State after a position was added.
    pub open spec fn with_position(self, margin_used: i64, pnl: i64) -> CrossMarginEngine {
        CrossMarginEngine {
            total_used_margin: self.total_used_margin.wrapping_add(margin_used),
            net_pnl: self.net_pnl.wrapping_add(pnl),
            position_count: self.position_count.wrapping_add(1),
            ..self
        }
    }

    /// State after a position was removed.
    pub open spec fn without_position(self, margin_used: i64, pnl: i64) -> CrossMarginEngine {
        CrossMarginEngine {
            total_used_margin: self.total_used_margin.wrapping_sub(margin_used),
            net_pnl: self.net_pnl.wrapping_sub(pnl),
            position_count: self.position_count.wrapping_sub(1),
            ..self
        }
    }

    /// Add a position to the pool.
    pub fn add_position(&mut self, margin_used: i64, pnl: i64)
        ensures
            *final(self) == old(self).with_position(margin_used, pnl),
    {
        self.total_used_margin = self.total_used_margin.wrapping_add(margin_used);
        self.net_pnl = self.net_pnl.wrapping_add(pnl);
        self.position_count = self.position_count.wrapping_add(1);
    }

    /// Remove a position from the pool.
    pub fn remove_position(&mut self, margin_used: i64, pnl: i64)
        ensures
            *final(self) == old(self).without_position(margin_used, pnl),
    {
        self.total_used_margin = self.total_used_margin.wrapping_sub(margin_used);
        self.net_pnl = self.net_pnl.wrapping_sub(pnl);
        self.position_count = self.position_count.wrapping_sub(1);
    }

    /// Used margin over portfolio value, scaled by 1e9.
    pub fn portfolio_margin_ratio(&self) -> (r: i64)
        requires
            fits_i64(self.ratio()),
        ensures
            r == self.ratio(),
    {
        if self.portfolio_value <= 0 {
            return i64::MAX;
        }
        mul_div(self.total_used_margin, FP_SCALE, self.portfolio_value)
    }

    /// The margin ratio exceeds `threshold`.
    pub fn is_undercollateralized(&self, threshold: i64) -> (r: bool)
        requires
            fits_i64(self.ratio()),
        ensures
            r == (self.ratio() > threshold),
    {
        let ratio: i64 = self.portfolio_margin_ratio();
        ratio > threshold
    }

    /// Set the portfolio value.
    pub fn update_portfolio_value(&mut self, value: i64)
        ensures
            *final(self) == (CrossMarginEngine { portfolio_value: value, ..*old(self) }),
    {
        self.portfolio_value = value;
    }

    /// Net profit over all positions.
    pub fn get_net_pnl(&self) -> (r: i64)
        ensures
            r == self.net_pnl,
    {
        self.net_pnl
    }
}

/// Removing a position undoes adding it.
pub proof fn lemma_remove_undoes_add(e: CrossMarginEngine, margin_used: i64, pnl: i64)
    ensures
        e.with_position(margin_used, pnl).without_position(margin_used, pnl) == e,
{
}

/// A long position with a positive margin and a maintenance ratio below its
/// margin ratio is liquidated strictly below its entry price.
pub proof fn lemma_long_liquidates_below_entry(p: MarginPosition)
    requires
        p.position_size > 0,
        p.entry_price > 0,
        notional(p.entry_price as int, p.position_size as int) != 0,
        0 <= p.maintenance_margin_ratio < im_ratio(
            p.initial_margin as int,
            notional(p.entry_price as int, p.position_size as int),
        ) <= FP_SCALE,
    ensures
        0 <= p.long_liquidation() < p.entry_price,
{
    let e = p.entry_price as int;
    let m = p.maintenance_margin_ratio as int;
    let r = im_ratio(
        p.initial_margin as int,
        notional(p.entry_price as int, p.position_size as int),
    );
    let s = FP_SCALE as int;
    assert(0 <= (e * (s - r)) / (s - m) < e) by (nonlinear_arith)
        requires
            e > 0,
            0 <= m < r <= s,
    ;
    assert(e * (s - r) >= 0) by (nonlinear_arith)
        requires
            e > 0,
            r <= s,
    ;
}

/// A short position with a maintenance ratio below its margin ratio is
/// liquidated no lower than its entry price.
pub proof fn lemma_short_liquidates_above_entry(p: MarginPosition)
    requires
        p.position_size < 0,
        p.entry_price > 0,
        notional(p.entry_price as int, p.position_size as int) != 0,
        0 <= p.maintenance_margin_ratio < im_ratio(
            p.initial_margin as int,
            notional(p.entry_price as int, p.position_size as int),
        ),
    ensures
        p.short_liquidation() >= p.entry_price,
{
    let e = p.entry_price as int;
    let m = p.maintenance_margin_ratio as int;
    let r = im_ratio(
        p.initial_margin as int,
        notional(p.entry_price as int, p.position_size as int),
    );
    let s = FP_SCALE as int;
    assert((e * (s + r)) / (s + m) >= e) by (nonlinear_arith)
        requires
            e > 0,
            s > 0,
            0 <= m < r,
    ;
    assert(e * (s + r) >= 0) by (nonlinear_arith)
        requires
            e > 0,
            s > 0,
            0 <= r,
    ;
}

/// A position that shows no profit and no loss is never liquidated while its
/// account holds the initial margin.
pub proof fn lemma_funded_position_survives(p: MarginPosition, calc: LiquidationCalculator)
    requires
        calc.unrealized_pnl == 0,
        calc.margin_balance >= p.initial_margin,
    ensures
        !(calc.margin_balance + calc.unrealized_pnl < p.maintenance_margin()
            && calc.margin_balance + calc.unrealized_pnl < p.initial_margin),
{
}

/// The profit of a position is its signed size times the move of the price since entry,
/// in scaled units and rounded toward zero: a long gains what the price rises, a short
/// what it falls.
pub proof fn lemma_profit_is_size_times_move(p: MarginPosition, mark_price: int)
    ensures
        ({
            let value = (mark_price - p.entry_price) * p.position_size;
            let rest = value - p.pnl_at(mark_price) * 1_000_000_000;
            &&& value >= 0 ==> 0 <= rest < 1_000_000_000
            &&& value <= 0 ==> -1_000_000_000 < rest <= 0
        }),
{
    let (e, z) = (p.entry_price as int, p.position_size as int);
    let value = (mark_price - e) * z;
    assert((e - mark_price) * (-z) == value) by (nonlinear_arith)
        requires
            value == (mark_price - e) * z,
    ;
    lemma_tdiv_rounds(value, 1_000_000_000);
}

/// A short loses when the price is above entry and gains when it is below; a long the
/// other way round. At the entry price there is neither profit nor loss.
pub proof fn lemma_profit_sign(p: MarginPosition, mark_price: int)
    ensures
        p.position_size < 0 && mark_price >= p.entry_price ==> p.pnl_at(mark_price) <= 0,
        p.position_size < 0 && mark_price <= p.entry_price ==> p.pnl_at(mark_price) >= 0,
        p.position_size > 0 && mark_price >= p.entry_price ==> p.pnl_at(mark_price) >= 0,
        p.position_size > 0 && mark_price <= p.entry_price ==> p.pnl_at(mark_price) <= 0,
        p.position_size == 0 || mark_price == p.entry_price ==> p.pnl_at(mark_price) == 0,
{
    lemma_profit_is_size_times_move(p, mark_price);
    let move_ = mark_price - p.entry_price;
    let z = p.position_size as int;
    let value = move_ * z;
    assert(move_ >= 0 && z >= 0 ==> value >= 0) by (nonlinear_arith)
        requires
            value == move_ * z,
    ;
    assert(move_ <= 0 && z <= 0 ==> value >= 0) by (nonlinear_arith)
        requires
            value == move_ * z,
    ;
    assert(move_ >= 0 && z <= 0 ==> value <= 0) by (nonlinear_arith)
        requires
            value == move_ * z,
    ;
    assert(move_ <= 0 && z >= 0 ==> value <= 0) by (nonlinear_arith)
        requires
            value == move_ * z,
    ;
}

/// The profit of a short is the opposite of that of a long of the same size and entry.
pub proof fn lemma_short_mirrors_long(long: MarginPosition, short: MarginPosition, mark_price: int)
    requires
        long.entry_price == short.entry_price,
        short.position_size == -long.position_size,
    ensures
        short.pnl_at(mark_price) == -long.pnl_at(mark_price),
{
    let move_ = mark_price - long.entry_price;
    let z = long.position_size as int;
    assert(move_ * (-z) == -(move_ * z) && (-move_) * z == -(move_ * z) && (-move_) * (-z) == move_
        * z) by (nonlinear_arith);
    lemma_tdiv_rounds(move_ * z, 1_000_000_000);
}

/// As the price rises, a long never loses and a short never gains.
pub proof fn lemma_profit_follows_price(p: MarginPosition, lower: int, higher: int)
    requires
        lower <= higher,
    ensures
        p.position_size >= 0 ==> p.pnl_at(lower) <= p.pnl_at(higher),
        p.position_size <= 0 ==> p.pnl_at(lower) >= p.pnl_at(higher),
{
    let (e, z) = (p.entry_price as int, p.position_size as int);
    if z > 0 {
        assert((lower - e) * z <= (higher - e) * z) by (nonlinear_arith)
            requires
                lower <= higher,
                z > 0,
        ;
        lemma_tdiv_monotone((lower - e) * z, (higher - e) * z, 1_000_000_000);
    } else {
        assert((e - lower) * (-z) >= (e - higher) * (-z)) by (nonlinear_arith)
            requires
                lower <= higher,
                z <= 0,
        ;
        lemma_tdiv_monotone((e - higher) * (-z), (e - lower) * (-z), 1_000_000_000);
        if z == 0 {
            lemma_profit_sign(p, lower);
            lemma_profit_sign(p, higher);
        }
    }
}

/// The initial margin of a new position times its leverage is the value that it is
/// entered at, short of it by less than the leverage.
pub proof fn lemma_margin_times_leverage(entry_price: i64, size: i64, leverage: i64)
    requires
        leverage > 0,
    ensures
        ({
            let value = entry_price * size;
            let margin = tdiv(abs(value), leverage as int);
            &&& value >= 0 ==> margin * leverage <= value < (margin + 1) * leverage
            &&& value <= 0 ==> margin * leverage <= -value < (margin + 1) * leverage
        }),
{
    let value = entry_price * size;
    lemma_tdiv_rounds(abs(value), leverage as int);
    let m = tdiv(abs(value), leverage as int);
    assert((m + 1) * leverage == m * leverage + leverage) by (nonlinear_arith);
}

/// The liquidation price of a long: with `n` the value that the position was entered at
/// and `r` its margin per unit of value, both rounded down, the price times one less the
/// maintenance ratio is the entry price times one less `r`, short of it by less than one
/// unit of the price.
pub proof fn lemma_long_liquidation(p: MarginPosition, n: int, r: int)
    requires
        p.position_size > 0,
        p.entry_price > 0,
        p.initial_margin >= 0,
        p.maintenance_margin_ratio < 1_000_000_000,
        0 < n,
        n * 1_000_000_000 <= p.entry_price * p.position_size < (n + 1) * 1_000_000_000,
        r * n <= p.initial_margin * 1_000_000_000 < (r + 1) * n,
        r <= 1_000_000_000,
    ensures
        ({
            let gap = 1_000_000_000 - p.maintenance_margin_ratio;
            let exact = p.entry_price * (1_000_000_000 - r);
            p.long_liquidation() * gap <= exact < (p.long_liquidation() + 1) * gap
        }),
{
    let gap = 1_000_000_000 - p.maintenance_margin_ratio;
    let e = p.entry_price as int;
    let exact = e * (1_000_000_000 - r);
    assert(exact >= 0) by (nonlinear_arith)
        requires
            exact == e * (1_000_000_000 - r),
            e > 0,
            r <= 1_000_000_000,
    ;
    assert(e * p.position_size >= 0) by (nonlinear_arith)
        requires
            e > 0,
            p.position_size > 0,
    ;
    lemma_tdiv_unique(e * p.position_size, 1_000_000_000, n);
    assert((r + 1) * n == r * n + n) by (nonlinear_arith);
    lemma_tdiv_unique(p.initial_margin * 1_000_000_000, n, r);
    lemma_tdiv_rounds(exact, gap);
    let l = tdiv(exact, gap);
    assert((l + 1) * gap == l * gap + gap) by (nonlinear_arith);
}

/// The liquidation price of a short: the price times one plus the maintenance ratio is
/// the entry price times one plus the margin per unit of value, short of it by less than
/// one unit of the price.
pub proof fn lemma_short_liquidation(p: MarginPosition, n: int, r: int)
    requires
        p.position_size < 0,
        p.entry_price > 0,
        p.initial_margin >= 0,
        p.maintenance_margin_ratio > -1_000_000_000,
        0 < n,
        n * 1_000_000_000 <= p.entry_price * (-p.position_size) < (n + 1) * 1_000_000_000,
        r * n <= p.initial_margin * 1_000_000_000 < (r + 1) * n,
        r >= 0,
    ensures
        ({
            let whole = 1_000_000_000 + p.maintenance_margin_ratio;
            let exact = p.entry_price * (1_000_000_000 + r);
            p.short_liquidation() * whole <= exact < (p.short_liquidation() + 1) * whole
        }),
{
    let whole = 1_000_000_000 + p.maintenance_margin_ratio;
    let e = p.entry_price as int;
    let z = -p.position_size;
    let exact = e * (1_000_000_000 + r);
    assert(exact >= 0) by (nonlinear_arith)
        requires
            exact == e * (1_000_000_000 + r),
            e > 0,
            r >= 0,
    ;
    assert(e * z >= 0) by (nonlinear_arith)
        requires
            e > 0,
            z > 0,
    ;
    lemma_tdiv_unique(e * z, 1_000_000_000, n);
    assert((r + 1) * n == r * n + n) by (nonlinear_arith);
    lemma_tdiv_unique(p.initial_margin * 1_000_000_000, n, r);
    lemma_tdiv_rounds(exact, whole);
    let l = tdiv(exact, whole);
    assert((l + 1) * whole == l * whole + whole) by (nonlinear_arith);
}

/// Only a long has a liquidation price as a long, and only a short one as a short; there
/// is none for a maintenance ratio of the whole, which the largest number stands for.
pub proof fn lemma_liquidation_by_side(p: MarginPosition)
    ensures
        p.position_size <= 0 ==> p.long_liquidation() == 0,
        p.position_size >= 0 ==> p.short_liquidation() == 0,
        p.position_size > 0 && p.entry_price * p.position_size >= 1_000_000_000
            && p.maintenance_margin_ratio >= 1_000_000_000 ==> p.long_liquidation() == i64::MAX,
{
    let value = p.entry_price * p.position_size;
    lemma_tdiv_rounds(value, 1_000_000_000);
}

/// The maintenance margin is the maintenance ratio of the value that a position was
/// entered at, whatever its side, and is not taken of its profit.
pub proof fn lemma_maintenance_is_share_of_value(p: MarginPosition, n: int)
    requires
        p.entry_price >= 0,
        p.maintenance_margin_ratio >= 0,
        ({
            let size = if p.position_size >= 0 {
                p.position_size as int
            } else {
                -p.position_size
            };
            n * 1_000_000_000 <= p.entry_price * size < (n + 1) * 1_000_000_000
        }),
    ensures
        p.maintenance_margin() * 1_000_000_000 <= n * p.maintenance_margin_ratio < (
        p.maintenance_margin() + 1) * 1_000_000_000,
{
    let e = p.entry_price as int;
    let z = abs(p.position_size as int);
    let m = p.maintenance_margin_ratio as int;
    assert(e * z >= 0) by (nonlinear_arith)
        requires
            e >= 0,
            z >= 0,
    ;
    lemma_tdiv_unique(e * z, 1_000_000_000, n);
    assert(n >= 0) by (nonlinear_arith)
        requires
            0 <= e * z < (n + 1) * 1_000_000_000,
    ;
    assert(n * m >= 0) by (nonlinear_arith)
        requires
            n >= 0,
            m >= 0,
    ;
    lemma_tdiv_rounds(n * m, 1_000_000_000);
}

/// With equity, the margin ratio times the equity is the margin used, short of it by less
/// than the equity; without equity the ratio is the largest there is. A loss lowers the
/// equity and so never lowers the ratio.
pub proof fn lemma_margin_ratio(c: LiquidationCalculator, used_margin: int)
    requires
        used_margin >= 0,
    ensures
        ({
            let equity = c.margin_balance + c.unrealized_pnl;
            let ratio = c.ratio(used_margin);
            if equity > 0 {
                ratio * equity <= used_margin * 1_000_000_000 < (ratio + 1) * equity
            } else {
                ratio == 0x7fff_ffff_ffff_ffff
            }
        }),
{
    let equity = c.margin_balance + c.unrealized_pnl;
    if equity > 0 {
        lemma_tdiv_rounds(used_margin * 1_000_000_000, equity);
        let q = tdiv(used_margin * 1_000_000_000, equity);
        assert((q + 1) * equity == q * equity + equity) by (nonlinear_arith);
    }
}

/// An account with a balance that has made a loss gets a margin call exactly where the
/// balance exceeds the threshold's share of the equity by a whole step; an account that
/// has lost everything gets one at every threshold below the largest; one with equity and
/// without profit or loss gets none.
pub proof fn lemma_margin_call(c: LiquidationCalculator, threshold: i64)
    requires
        c.margin_balance >= 0,
    ensures
        ({
            let equity = c.margin_balance + c.unrealized_pnl;
            &&& equity <= 0 ==> c.calls(threshold) == (threshold < 0x7fff_ffff_ffff_ffff)
            &&& equity > 0 && c.unrealized_pnl == 0 ==> !c.calls(threshold)
            &&& equity > 0 && c.unrealized_pnl != 0 ==> c.calls(threshold) == (c.margin_balance
                * 1_000_000_000 >= (threshold + 1) * equity)
        }),
{
    lemma_margin_ratio(c, c.margin_balance as int);
    let equity = c.margin_balance + c.unrealized_pnl;
    let ratio = c.ratio(c.margin_balance as int);
    let x = c.margin_balance * 1_000_000_000;
    if equity > 0 {
        let t = threshold as int;
        assert((ratio >= t + 1) == (x >= (t + 1) * equity)) by (nonlinear_arith)
            requires
                ratio * equity <= x < (ratio + 1) * equity,
                equity > 0,
        ;
    }
}

/// The ratio of a portfolio times its value is the margin used by all its positions.
pub proof fn lemma_portfolio_ratio(e: CrossMarginEngine)
    requires
        e.total_used_margin >= 0,
    ensures
        if e.portfolio_value > 0 {
            e.ratio() * e.portfolio_value <= e.total_used_margin * 1_000_000_000 < (e.ratio() + 1)
                * e.portfolio_value
        } else {
            e.ratio() == 0x7fff_ffff_ffff_ffff
        },
{
    let v = e.portfolio_value as int;
    if v > 0 {
        lemma_tdiv_rounds(e.total_used_margin * 1_000_000_000, v);
        let q = e.ratio();
        assert((q + 1) * v == q * v + v) by (nonlinear_arith);
    }
}

/// Adding a position adds its margin and its profit to those of the pool, and counts one
/// position more.
pub proof fn lemma_add_accumulates(e: CrossMarginEngine, margin_used: i64, pnl: i64)
    requires
        fits_i64(e.total_used_margin + margin_used),
        fits_i64(e.net_pnl + pnl),
        e.position_count < u64::MAX,
    ensures
        e.with_position(margin_used, pnl).total_used_margin == e.total_used_margin + margin_used,
        e.with_position(margin_used, pnl).net_pnl == e.net_pnl + pnl,
        e.with_position(margin_used, pnl).position_count == e.position_count + 1,
        e.with_position(margin_used, pnl).portfolio_value == e.portfolio_value,
{
}

} // verus!
