//! Gateways to exchanges.

pub mod binance_ws_adapter;
pub mod fix_protocol_engine;
pub mod frame_buffer;
pub mod gateway_manager;
pub mod scan;
pub mod venue_gateway;
