//! Bybit: margin modes, order flags and maker rebates.

use vstd::prelude::*;
use crate::fixed::{cast_i64, fits_i64, lemma_tdiv_bound, lemma_tdiv_rounds, mul_div, tdiv};

verus! {

/// Price in fixed-point units.
pub type FixedPrice = i64;

/// Quantity in fixed-point units.
pub type FixedQty = i64;

/// Scale of prices.
pub const PRICE_SCALE: i64 = 1_000_000_000;

/// Basis points in the whole.
pub const BPS: i64 = 10_000;

/// Margin mode.
#[derive(Debug, Clone, Copy, PartialEq, Eq, Structural)]
pub enum MarginMode {
    Isolated,
    Unified,
    Portfolio,
}

/// Order flags.
#[derive(Debug, Clone, Copy, PartialEq, Eq, Structural)]
pub struct BybitOrderFlags {
    /// Flags that are set.
    pub bits: u8,
}

impl BybitOrderFlags {
    /// Take-profit or stop-loss order.
    pub const TP_SL_ORDER: u8 = 1;

    /// Close the position on trigger.
    pub const CLOSE_ON_TRIGGER: u8 = 2;

    /// Only reduce the position.
    pub const REDUCE_ONLY: u8 = 4;

    /// Only rest in the book.
    pub const POST_ONLY: u8 = 8;

    /// No flag set.
    pub fn new() -> (r: Self)
        ensures
            r.bits == 0,
    {
        BybitOrderFlags { bits: 0 }
    }

    /// With the take-profit or stop-loss flag set.
    pub fn with_tp_sl(self) -> (r: Self)
        ensures
            r.bits == self.bits | 1u8,
    {
        BybitOrderFlags { bits: self.bits | Self::TP_SL_ORDER }
    }
}

/// Position state.
#[derive(Debug)]
pub struct BybitPosition {
    /// Symbol.
    pub symbol_id: u32,
    /// Side.
    pub side: u8,
    /// Size.
    pub size: i64,
    /// Entry price.
    pub entry_price: i64,
    /// Liquidation price.
    pub liq_price: i64,
    /// Unrealized profit.
    pub unrealized_pnl: i64,
    /// Leverage.
    pub leverage: u64,
    /// Margin mode, by number.
    pub margin_mode: u8,
}

impl BybitPosition {
    /// Flat position with isolated margin.
    pub fn new(symbol_id: u32) -> (r: Self)
        ensures
            r == (BybitPosition {
                symbol_id,
                side: 0,
                size: 0,
                entry_price: 0,
                liq_price: 0,
                unrealized_pnl: 0,
                leverage: 1,
                margin_mode: 0,
            }),
    {
        BybitPosition {
            symbol_id,
            side: 0,
            size: 0,
            entry_price: 0,
            liq_price: 0,
            unrealized_pnl: 0,
            leverage: 1,
            margin_mode: 0,
        }
    }
}

/// Value of a quantity at a price.
pub open spec fn notional(qty: int, price: int) -> int {
    tdiv(qty * price, PRICE_SCALE as int)
}

/// Share of a value in basis points.
pub open spec fn share(value: int, bps: int) -> int {
    tdiv(value * bps, BPS as int)
}

/// Fee and rebate calculator.
#[derive(Debug)]
pub struct BybitFeeCalculator {
    /// Maker rebate (basis points).
    pub maker_rebate_bps: u64,
    /// Taker fee (basis points).
    pub taker_fee_bps: u64,
    /// Fee tier.
    pub vip_level: u8,
    /// Value of maker fills.
    pub total_maker_volume: i64,
    /// Value of taker fills.
    pub total_taker_volume: i64,
    /// Rebates earned.
    pub total_rebates_earned: i64,
}

impl BybitFeeCalculator {
    /// Calculator with the default rates (0.10%).
    pub fn new() -> (r: Self)
        ensures
            r == (BybitFeeCalculator {
                maker_rebate_bps: 10,
                taker_fee_bps: 10,
                vip_level: 0,
                total_maker_volume: 0,
                total_taker_volume: 0,
                total_rebates_earned: 0,
            }),
    {
        BybitFeeCalculator {
            maker_rebate_bps: 10,
            taker_fee_bps: 10,
            vip_level: 0,
            total_maker_volume: 0,
            total_taker_volume: 0,
            total_rebates_earned: 0,
        }
    }

    /// Rebate for a maker fill.
    pub fn calculate_maker_rebate(&self, qty: FixedQty, price: FixedPrice) -> (r: FixedQty)
        requires
            fits_i64(notional(qty as int, price as int)),
            fits_i64(share(notional(qty as int, price as int), self.maker_rebate_bps as i64 as int)),
        ensures
            r == share(notional(qty as int, price as int), self.maker_rebate_bps as i64 as int),
    {
        let value: i64 = mul_div(qty, price, PRICE_SCALE);
        mul_div(value, cast_i64(self.maker_rebate_bps), BPS)
    }

    /// Fee for a taker fill.
    pub fn calculate_taker_fee(&self, qty: FixedQty, price: FixedPrice) -> (r: FixedQty)
        requires
            fits_i64(notional(qty as int, price as int)),
            fits_i64(share(notional(qty as int, price as int), self.taker_fee_bps as i64 as int)),
        ensures
            r == share(notional(qty as int, price as int), self.taker_fee_bps as i64 as int),
    {
        let value: i64 = mul_div(qty, price, PRICE_SCALE);
        mul_div(value, cast_i64(self.taker_fee_bps), BPS)
    }

    /// Record a maker fill and its rebate.
    pub fn record_maker_fill(&mut self, qty: FixedQty, price: FixedPrice)
        requires
            fits_i64(notional(qty as int, price as int)),
            fits_i64(
                share(notional(qty as int, price as int), old(self).maker_rebate_bps as i64 as int),
            ),
        ensures
            *final(self) == (BybitFeeCalculator {
                total_maker_volume: old(self).total_maker_volume.wrapping_add(
                    notional(qty as int, price as int) as i64,
                ),
                total_rebates_earned: old(self).total_rebates_earned.wrapping_add(
                    share(
                        notional(qty as int, price as int),
                        old(self).maker_rebate_bps as i64 as int,
                    ) as i64,
                ),
                ..*old(self)
            }),
    {
        let value: i64 = mul_div(qty, price, PRICE_SCALE);
        self.total_maker_volume = self.total_maker_volume.wrapping_add(value);
        let rebate: i64 = self.calculate_maker_rebate(qty, price);
        self.total_rebates_earned = self.total_rebates_earned.wrapping_add(rebate);
    }
}

/// The value of a fill is its quantity times its price, counted in units of a thousand
/// million, and what is left of a unit is dropped. A fee or a rebate is so many of the
/// ten thousand parts of that value, with what is left of a part dropped.
pub proof fn lemma_fee_is_part_of_value(qty: int, price: int, bps: int)
    requires
        0 <= qty,
        0 <= price,
        0 <= bps,
    ensures
        notional(qty, price) * 1_000_000_000 <= qty * price,
        qty * price < (notional(qty, price) + 1) * 1_000_000_000,
        share(notional(qty, price), bps) * 10_000 <= notional(qty, price) * bps,
        notional(qty, price) * bps < (share(notional(qty, price), bps) + 1) * 10_000,
{
    assert(0 <= qty * price) by (nonlinear_arith)
        requires
            0 <= qty,
            0 <= price,
    ;
    lemma_tdiv_rounds(qty * price, 1_000_000_000);
    lemma_tdiv_bound(qty * price, 1_000_000_000);
    let value = notional(qty, price);
    assert(0 <= value * bps) by (nonlinear_arith)
        requires
            0 <= value,
            0 <= bps,
    ;
    lemma_tdiv_rounds(value * bps, 10_000);
}

/// What is given back and what is taken change sign with the quantity.
pub proof fn lemma_fee_changes_sign(qty: int, price: int, bps: int)
    ensures
        notional(-qty, price) == -notional(qty, price),
        share(notional(-qty, price), bps) == -share(notional(qty, price), bps),
{
    assert((-qty) * price == -(qty * price)) by (nonlinear_arith);
    lemma_tdiv_rounds(qty * price, 1_000_000_000);
    let value = notional(qty, price);
    assert((-value) * bps == -(value * bps)) by (nonlinear_arith);
    lemma_tdiv_rounds(value * bps, 10_000);
}

} // verus!
