//! Parallel bus decoder.

pub mod agreement;
pub mod assembly;
pub mod bus_laws;
pub mod decoder;
pub mod enable_feed;
pub mod gate;
pub mod index_model;
pub mod indexed;
pub mod merge;
pub mod parallel_order;
pub mod parallel_run;
pub mod received_model;
pub mod received_runs;
pub mod recorded;
pub mod recorded_model;
pub mod sample_model;
pub mod scan;
pub mod select;
pub mod stream_runs;
pub mod stream_windows;
pub mod streamed_model;
pub mod types;
pub mod whole_run;
pub mod wiring;
pub mod worker;
