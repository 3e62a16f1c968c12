//! Feature flags.

use vstd::prelude::*;

verus! {

/// Spot trading.
pub const SPOT_TRADING: u64 = 1;

/// Futures trading.
pub const FUTURES_TRADING: u64 = 2;

/// Options trading.
pub const OPTIONS_TRADING: u64 = 4;

/// Margin trading.
pub const MARGIN_TRADING: u64 = 8;

/// Staking.
pub const STAKING: u64 = 16;

/// Lending.
pub const LENDING: u64 = 32;

/// Withdrawals.
pub const WITHDRAWAL: u64 = 64;

/// Deposits.
pub const DEPOSIT: u64 = 128;

} // verus!
