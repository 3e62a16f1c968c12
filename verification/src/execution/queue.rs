//! Queue models: position, fill probability and stale quotes.

pub mod latency_arb;
pub mod maker_fill_prob;
pub mod queue_position;
