//! Exchange-specific rules: matching, fees and rate limits.

pub mod binance_matcher;
pub mod bybit_quirks;
pub mod okx_quirks;
