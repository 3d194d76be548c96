//! Host side of script decoders.

pub mod bridge;
pub mod conditions;
pub mod discovery;
pub mod scheduler;
pub mod script_value;
pub mod wait_laws;
pub mod wait_request;
