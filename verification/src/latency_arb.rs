//! Latency arbitrage: crossed venues and stale quotes.

pub mod cross_venue_sniper;
pub mod stale_quote_detector;
