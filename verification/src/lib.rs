//! Verified building blocks of a low-latency trading system.
//!
//! Every component is an owned state machine on integers: constructors
//! establish its invariant, methods keep it, and each contract says exactly
//! what is returned and how the state changes.

use vstd::prelude::*;

pub mod backtest;
pub mod bytes;
pub mod clock;
pub mod compliance;
pub mod compression;
pub mod core_engine;
pub mod crosschain;
pub mod defi;
pub mod derivatives;
pub mod exchange_quirks;
pub mod execution;
pub mod features;
pub mod fixed;
pub mod gateways;
pub mod hardware;
pub mod indicators;
pub mod latency_arb;
pub mod ring;
pub mod text;
pub mod transport;
