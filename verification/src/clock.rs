//! Global event clock: causality ordering, sequencing and drift detection.

pub mod deterministic_seq;
pub mod global_clock;
pub mod time_warp_guard;
