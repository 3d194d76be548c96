//! Nodes that combine levels and events.

pub mod formatter;
pub mod merge;
pub mod node_laws;
pub mod sr_latch;
pub mod template;
pub mod trigger_counter;
