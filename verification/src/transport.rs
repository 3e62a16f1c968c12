//! Hand-over of events between components.

pub mod ring_buffer;
