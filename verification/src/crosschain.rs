//! Layer 2, cross-chain and bridging analytics.

pub mod bridge_flow;
pub mod l2_monitor;
pub mod mev_protector;
