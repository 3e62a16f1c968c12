//! Event-driven backtesting: tick replay, walk-forward optimization and
//! slippage modelling.

pub mod event_replay;
pub mod slippage_modeler;
pub mod walk_forward;
