//! Perpetual swaps: funding rates, margin and open interest.

pub mod funding_rate_arb;
pub mod margin_engine;
pub mod open_interest;
