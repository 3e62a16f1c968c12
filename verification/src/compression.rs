//! Compression of order book deltas and state, and snapshots for recovery.

pub mod delta_encoder;
pub mod lz4_custom;
pub mod state_snapshot;
