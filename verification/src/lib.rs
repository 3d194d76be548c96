//! Verified processing core of a digital logic analyzer.

pub mod bit_laws;
pub mod bits;
pub mod capture_file;
pub mod digest;
pub mod digital;
pub mod dslogic;
pub mod level_changes;
pub mod little_endian;
pub mod logic;
pub mod logic_analyzer;
pub mod parallel_decoder;
pub mod paths;
pub mod ports;
pub mod sigrok_decoder;
pub mod sigrokdecode;
pub mod sinks;
pub mod streams;
pub mod synthetic_capture_source;
pub mod text;
pub mod text_laws;
pub mod uart_decoder;
pub mod uart_laws;
