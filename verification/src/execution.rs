//! Order execution: iceberg orders, slicing, routing and queue models.

pub mod iceberg_handler;
pub mod queue;
pub mod smart_router;
pub mod twap_vwap;
