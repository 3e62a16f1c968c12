//! DeFi analytics: contract events, value locked and validators.

pub mod smart_contract_io;
pub mod tvl_tracker;
pub mod validator_metrics;
