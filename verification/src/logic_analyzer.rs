//! Capture requests, captured chunks and errors shared by logic-analyzer drivers.

pub mod chunk;
pub mod config;
pub mod demux;
pub mod error;
pub mod ports;
pub mod source;
pub mod stream_laws;
