//! Streaming indicators: averages, oscillators and bands, updated price by price.

pub mod momentum_osc;
pub mod streaming_ta;
pub mod volatility_bands;
